//! LSP-style `Content-Length` framing.
//!
//! The header counts **bytes**, not characters. Getting that wrong
//! desynchronises the stream permanently on the first non-ASCII character.
//!
//! A header block is a run of lines, each read up to and including its
//! newline, closed by a line that is empty once its trailing `\r` and `\n`
//! are trimmed. Every header line must be UTF-8. A `Content-Length:` line
//! sets the body length to its value, trimmed of whitespace and parsed as
//! a `usize`; a value that does not parse clears it, and a later line of
//! the same name wins. The body is then exactly that many bytes.

use vstd::prelude::*;
use vstd::utf8::*;

use crate::decimal::{decimal, lemma_decimal, parse_usize, parse_usize_bytes, push_decimal};

verus! {

broadcast use vstd::seq_lib::group_seq_properties;

/// Why a framed message could not be read.
#[derive(Debug, Clone, Copy, PartialEq, Eq, Structural)]
pub enum FrameError {
    /// The stream ended inside a header block.
    EndedInHeader,
    /// A header line is not UTF-8.
    InvalidUtf8,
    /// The header block closed without a usable `Content-Length`.
    MissingLength,
    /// The stream ended before the whole body arrived. A truncated frame is
    /// indistinguishable from a desync, so it is an error, not a short read.
    TruncatedBody,
}

// ---------------------------------------------------------------------
// The byte-level model of a header block.
// ---------------------------------------------------------------------

/// The length of the first line of `s`: through its first `\n`, or all of
/// `s` when there is none.
pub open spec fn first_line_len(s: Seq<u8>) -> int
    decreases s.len(),
{
    if s.len() == 0 {
        0
    } else if s[0] == 10 {
        1
    } else {
        1 + first_line_len(s.drop_first())
    }
}

/// `s` without its trailing `\r` and `\n` bytes.
pub open spec fn trim_newlines(s: Seq<u8>) -> Seq<u8>
    decreases s.len(),
{
    if s.len() > 0 && (s.last() == 13 || s.last() == 10) {
        trim_newlines(s.drop_last())
    } else {
        s
    }
}

/// The UTF-8 encoding of a character with Unicode's `White_Space`
/// property, the set `char::is_whitespace` tests.
pub open spec fn is_whitespace_utf8(e: Seq<u8>) -> bool {
    ||| e.len() == 1 && ((9 <= e[0] && e[0] <= 13) || e[0] == 32)
    ||| e.len() == 2 && e[0] == 0xC2 && (e[1] == 0x85 || e[1] == 0xA0)
    ||| e.len() == 3 && e[0] == 0xE1 && e[1] == 0x9A && e[2] == 0x80
    ||| e.len() == 3 && e[0] == 0xE2 && e[1] == 0x80 && ((0x80 <= e[2] && e[2] <= 0x8A) || e[2]
        == 0xA8 || e[2] == 0xA9 || e[2] == 0xAF)
    ||| e.len() == 3 && e[0] == 0xE2 && e[1] == 0x81 && e[2] == 0x9F
    ||| e.len() == 3 && e[0] == 0xE3 && e[1] == 0x80 && e[2] == 0x80
}

/// The length of the whitespace character that `s` starts with, or 0.
pub open spec fn leading_ws(s: Seq<u8>) -> int {
    if s.len() >= 1 && is_whitespace_utf8(s.take(1)) {
        1
    } else if s.len() >= 2 && is_whitespace_utf8(s.take(2)) {
        2
    } else if s.len() >= 3 && is_whitespace_utf8(s.take(3)) {
        3
    } else {
        0
    }
}

/// The length of the whitespace character that `s` ends with, or 0.
pub open spec fn trailing_ws(s: Seq<u8>) -> int {
    if s.len() >= 1 && is_whitespace_utf8(s.skip(s.len() - 1)) {
        1
    } else if s.len() >= 2 && is_whitespace_utf8(s.skip(s.len() - 2)) {
        2
    } else if s.len() >= 3 && is_whitespace_utf8(s.skip(s.len() - 3)) {
        3
    } else {
        0
    }
}

pub open spec fn trim_start_ws(s: Seq<u8>) -> Seq<u8>
    decreases s.len(),
{
    if leading_ws(s) > 0 && leading_ws(s) <= s.len() {
        trim_start_ws(s.skip(leading_ws(s)))
    } else {
        s
    }
}

pub open spec fn trim_end_ws(s: Seq<u8>) -> Seq<u8>
    decreases s.len(),
{
    if trailing_ws(s) > 0 && trailing_ws(s) <= s.len() {
        trim_end_ws(s.take(s.len() - trailing_ws(s)))
    } else {
        s
    }
}

/// `str::trim` on the UTF-8 bytes of a string.
pub open spec fn trim_ws(s: Seq<u8>) -> Seq<u8> {
    trim_end_ws(trim_start_ws(s))
}

/// The bytes of `Content-Length:`.
pub open spec fn length_tag() -> Seq<u8> {
    seq![67u8, 111, 110, 116, 101, 110, 116, 45, 76, 101, 110, 103, 116, 104, 58]
}

/// The body length after one non-empty header line (newlines trimmed):
/// a `Content-Length:` line sets it to its parsed value, any other line
/// leaves it as it was.
pub open spec fn header_length(line: Seq<u8>, current: Option<usize>) -> Option<usize> {
    if line.len() >= 15 && line.take(15) == length_tag() {
        parse_usize(trim_ws(line.skip(15)))
    } else {
        current
    }
}

/// How a header block ends. The `int` is how many bytes it took.
pub enum HeaderEnd {
    /// No header at all: the stream was already over.
    Clean,
    EndedInHeader,
    InvalidUtf8(int),
    MissingLength(int),
    Body(usize, int),
}

pub open spec fn shift_end(e: HeaderEnd, n: int) -> HeaderEnd {
    match e {
        HeaderEnd::InvalidUtf8(k) => HeaderEnd::InvalidUtf8(k + n),
        HeaderEnd::MissingLength(k) => HeaderEnd::MissingLength(k + n),
        HeaderEnd::Body(l, k) => HeaderEnd::Body(l, k + n),
        other => other,
    }
}

/// Read header lines from `s`, given the length and whether a header line
/// has been seen so far.
#[verifier::opaque]
pub open spec fn scan_headers(s: Seq<u8>, length: Option<usize>, saw_header: bool) -> HeaderEnd
    decreases s.len(),
{
    if s.len() == 0 {
        if saw_header {
            HeaderEnd::EndedInHeader
        } else {
            HeaderEnd::Clean
        }
    } else {
        let n = first_line_len(s);
        proof {
            lemma_first_line_len_bounds(s);
        }
        let line = s.take(n);
        if !valid_utf8(line) {
            HeaderEnd::InvalidUtf8(n)
        } else if trim_newlines(line).len() == 0 {
            match length {
                Some(l) => HeaderEnd::Body(l, n),
                None => HeaderEnd::MissingLength(n),
            }
        } else {
            shift_end(scan_headers(s.skip(n), header_length(trim_newlines(line), length), true), n)
        }
    }
}

/// What reading one message from `s` yields.
pub open spec fn read_outcome(s: Seq<u8>) -> Result<Option<Seq<u8>>, FrameError> {
    match scan_headers(s, None, false) {
        HeaderEnd::Clean => Ok(None),
        HeaderEnd::EndedInHeader => Err(FrameError::EndedInHeader),
        HeaderEnd::InvalidUtf8(_) => Err(FrameError::InvalidUtf8),
        HeaderEnd::MissingLength(_) => Err(FrameError::MissingLength),
        HeaderEnd::Body(l, k) => if k + l <= s.len() {
            Ok(Some(s.subrange(k, k + l)))
        } else {
            Err(FrameError::TruncatedBody)
        },
    }
}

/// What is left of `s` after reading one message from it.
pub open spec fn read_rest(s: Seq<u8>) -> Seq<u8> {
    match scan_headers(s, None, false) {
        HeaderEnd::Clean => s,
        HeaderEnd::EndedInHeader => Seq::empty(),
        HeaderEnd::InvalidUtf8(k) => s.skip(k),
        HeaderEnd::MissingLength(k) => s.skip(k),
        HeaderEnd::Body(l, k) => if k + l <= s.len() {
            s.skip(k + l)
        } else {
            Seq::empty()
        },
    }
}

/// The frame `write_message` puts on the wire for `body`.
pub open spec fn frame(body: Seq<u8>) -> Seq<u8> {
    length_tag() + seq![32u8] + decimal(body.len()) + seq![13u8, 10, 13, 10] + body
}

pub open spec fn outcome_view(r: Result<Option<Vec<u8>>, FrameError>) -> Result<
    Option<Seq<u8>>,
    FrameError,
> {
    match r {
        Ok(Some(v)) => Ok(Some(v@)),
        Ok(None) => Ok(None),
        Err(e) => Err(e),
    }
}

// ---------------------------------------------------------------------
// Lemmas about lines.
// ---------------------------------------------------------------------

pub proof fn lemma_first_line_len_bounds(s: Seq<u8>)
    ensures
        s.len() > 0 ==> 1 <= first_line_len(s) <= s.len(),
        s.len() == 0 ==> first_line_len(s) == 0,
    decreases s.len(),
{
    if s.len() > 0 && s[0] != 10 {
        lemma_first_line_len_bounds(s.drop_first());
    }
}

/// The first line ends at the first newline.
proof fn lemma_first_line_len_at(s: Seq<u8>, i: int)
    requires
        0 <= i < s.len(),
        s[i] == 10,
        forall|j: int| 0 <= j < i ==> s[j] != 10,
    ensures
        first_line_len(s) == i + 1,
    decreases i,
{
    if i > 0 {
        assert(s[0] != 10);
        assert forall|j: int| 0 <= j < i - 1 implies s.drop_first()[j] != 10 by {
            assert(s.drop_first()[j] == s[j + 1]);
        }
        lemma_first_line_len_at(s.drop_first(), i - 1);
    }
}

/// Without a newline the line is the whole of `s`.
proof fn lemma_first_line_len_none(s: Seq<u8>)
    requires
        forall|j: int| 0 <= j < s.len() ==> s[j] != 10,
    ensures
        first_line_len(s) == s.len(),
    decreases s.len(),
{
    if s.len() > 0 {
        assert forall|j: int| 0 <= j < s.len() - 1 implies s.drop_first()[j] != 10 by {
            assert(s.drop_first()[j] == s[j + 1]);
        }
        lemma_first_line_len_none(s.drop_first());
    }
}

/// Reading a header line that is neither bad nor blank moves on to the
/// rest of the stream.
proof fn lemma_scan_step(t: Seq<u8>, length: Option<usize>, saw: bool, off: int)
    requires
        t.len() > 0,
        valid_utf8(t.take(first_line_len(t))),
        trim_newlines(t.take(first_line_len(t))).len() > 0,
    ensures
        shift_end(scan_headers(t, length, saw), off) == shift_end(
            scan_headers(
                t.skip(first_line_len(t)),
                header_length(trim_newlines(t.take(first_line_len(t))), length),
                true,
            ),
            off + first_line_len(t),
        ),
{
    let n = first_line_len(t);
    let e = scan_headers(
        t.skip(n),
        header_length(trim_newlines(t.take(n)), length),
        true,
    );
    reveal(scan_headers);
    assert(scan_headers(t, length, saw) == shift_end(e, n));
}

/// A blank line closes the header block.
proof fn lemma_scan_blank(t: Seq<u8>, length: Option<usize>, saw: bool)
    requires
        t.len() > 0,
        valid_utf8(t.take(first_line_len(t))),
        trim_newlines(t.take(first_line_len(t))).len() == 0,
    ensures
        scan_headers(t, length, saw) == match length {
            Some(l) => HeaderEnd::Body(l, first_line_len(t)),
            None => HeaderEnd::MissingLength(first_line_len(t)),
        },
{
    reveal(scan_headers);
}

/// A line that is not UTF-8 stops the read.
proof fn lemma_scan_bad(t: Seq<u8>, length: Option<usize>, saw: bool)
    requires
        t.len() > 0,
        !valid_utf8(t.take(first_line_len(t))),
    ensures
        scan_headers(t, length, saw) == HeaderEnd::InvalidUtf8(first_line_len(t)),
{
    reveal(scan_headers);
}

/// At the end of the stream.
proof fn lemma_scan_empty(t: Seq<u8>, length: Option<usize>, saw: bool)
    requires
        t.len() == 0,
    ensures
        scan_headers(t, length, saw) == if saw {
            HeaderEnd::EndedInHeader
        } else {
            HeaderEnd::Clean
        },
{
    reveal(scan_headers);
}

/// ASCII bytes are UTF-8.
proof fn lemma_ascii_utf8(s: Seq<u8>)
    requires
        forall|j: int| 0 <= j < s.len() ==> s[j] < 128,
    ensures
        valid_utf8(s),
    decreases s.len(),
{
    if s.len() > 0 {
        assert(valid_first_scalar(s));
        assert(pop_first_scalar(s) =~= s.drop_first());
        assert forall|j: int| 0 <= j < s.len() - 1 implies s.drop_first()[j] < 128 by {
            assert(s.drop_first()[j] == s[j + 1]);
        }
        lemma_ascii_utf8(s.drop_first());
    }
}

// ---------------------------------------------------------------------
// Executable pieces.
// ---------------------------------------------------------------------

/// The length of the line starting at `start`.
fn line_len_from(input: &[u8], start: usize) -> (n: usize)
    requires
        start < input@.len(),
    ensures
        n as int == first_line_len(input@.skip(start as int)),
        1 <= n <= input@.len() - start,
        forall|j: int| start <= j < start + n - 1 ==> input@[j] != 10,
{
    let ghost s = input@.skip(start as int);
    let mut i: usize = start;
    while i < input.len()
        invariant
            start <= i <= input@.len(),
            s == input@.skip(start as int),
            forall|j: int| start <= j < i ==> input@[j] != 10,
        decreases input.len() - i,
    {
        if input[i] == 10 {
            proof {
                assert forall|j: int| 0 <= j < i - start implies s[j] != 10 by {
                    assert(s[j] == input@[j + start]);
                }
                lemma_first_line_len_at(s, i - start);
            }
            return i - start + 1;
        }
        i = i + 1;
    }
    proof {
        assert forall|j: int| 0 <= j < s.len() implies s[j] != 10 by {
            assert(s[j] == input@[j + start]);
        }
        lemma_first_line_len_none(s);
    }
    input.len() - start
}

/// Whether `bytes` is UTF-8.
pub fn is_utf8(bytes: &[u8]) -> (r: bool)
    ensures
        r == valid_utf8(bytes@),
{
    let n = bytes.len();
    let mut i: usize = 0;
    assert(bytes@.subrange(0, 0) =~= Seq::<u8>::empty());
    while i < n
        invariant
            n == bytes@.len(),
            i <= n,
            partial_valid_utf8(bytes@, i as int),
        decreases n - i,
    {
        let ghost rest = bytes@.subrange(i as int, n as int);
        let b0 = bytes[i];
        let mut k: usize = 0;
        if b0 <= 0x7f {
            k = 1;
        } else if b0 >= 0xc0 && b0 <= 0xdf {
            if n - i > 1 && bytes[i + 1] >= 0x80 && bytes[i + 1] <= 0xbf {
                let cp: u32 = ((b0 & 0x1F) as u32) << 6u32 | ((bytes[i + 1] & 0x3f) as u32);
                assert(cp == decode_first_codepoint(rest));
                if cp >= 0x80 && !(0xD800 <= cp && cp <= 0xDFFF) {
                    k = 2;
                }
            }
        } else if b0 >= 0xe0 && b0 <= 0xef {
            if n - i > 2 && bytes[i + 1] >= 0x80 && bytes[i + 1] <= 0xbf && bytes[i + 2] >= 0x80
                && bytes[i + 2] <= 0xbf {
                let cp: u32 = ((b0 & 0x0F) as u32) << 12u32 | ((bytes[i + 1] & 0x3f) as u32)
                    << 6u32 | ((bytes[i + 2] & 0x3f) as u32);
                assert(cp == decode_first_codepoint(rest));
                if cp >= 0x800 && !(0xD800 <= cp && cp <= 0xDFFF) {
                    k = 3;
                }
            }
        } else if b0 >= 0xf0 && b0 <= 0xf7 {
            if n - i > 3 && bytes[i + 1] >= 0x80 && bytes[i + 1] <= 0xbf && bytes[i + 2] >= 0x80
                && bytes[i + 2] <= 0xbf && bytes[i + 3] >= 0x80 && bytes[i + 3] <= 0xbf {
                let cp: u32 = ((b0 & 0x07) as u32) << 18u32 | ((bytes[i + 1] & 0x3f) as u32)
                    << 12u32 | ((bytes[i + 2] & 0x3f) as u32) << 6u32 | ((bytes[i + 3] & 0x3f)
                    as u32);
                assert(cp == decode_first_codepoint(rest));
                if cp >= 0x10000 && cp <= 0x10ffff && !(0xD800 <= cp && cp <= 0xDFFF) {
                    k = 4;
                }
            }
        }
        if k == 0 {
            proof {
                assert(!valid_first_scalar(rest));
                assert(!valid_utf8(rest));
                partial_valid_partial_invalid_utf8(bytes@, i as int);
            }
            return false;
        }
        proof {
            assert(valid_first_scalar(rest));
            assert(length_of_first_scalar(rest) == k);
            partial_valid_utf8_extend(bytes@, i as int);
        }
        i = i + k;
    }
    assert(bytes@.subrange(0, n as int) =~= bytes@);
    true
}

/// The end of `line` once its trailing `\r` and `\n` bytes are dropped.
fn trimmed_newline_end(line: &[u8]) -> (end: usize)
    ensures
        end <= line@.len(),
        line@.take(end as int) == trim_newlines(line@),
{
    let mut end: usize = line.len();
    assert(line@.take(end as int) =~= line@);
    while end > 0 && (line[end - 1] == 13 || line[end - 1] == 10)
        invariant
            end <= line@.len(),
            trim_newlines(line@.take(end as int)) == trim_newlines(line@),
        decreases end,
    {
        assert(line@.take(end as int).drop_last() =~= line@.take(end - 1));
        end = end - 1;
    }
    end
}

/// Whether `s` starts with a whitespace character, and its length.
fn leading_ws_len(s: &[u8], start: usize, end: usize) -> (k: usize)
    requires
        start <= end <= s@.len(),
    ensures
        k as int == leading_ws(s@.subrange(start as int, end as int)),
{
    let ghost t = s@.subrange(start as int, end as int);
    let n = end - start;
    if n >= 1 {
        let a = s[start];
        if (a >= 9 && a <= 13) || a == 32 {
            assert(is_whitespace_utf8(t.take(1)));
            return 1;
        }
        assert(!is_whitespace_utf8(t.take(1)));
    }
    if n >= 2 {
        let a = s[start];
        let b = s[start + 1];
        if a == 0xC2 && (b == 0x85 || b == 0xA0) {
            assert(is_whitespace_utf8(t.take(2)));
            return 2;
        }
        assert(!is_whitespace_utf8(t.take(2)));
    }
    if n >= 3 {
        let a = s[start];
        let b = s[start + 1];
        let c = s[start + 2];
        if (a == 0xE1 && b == 0x9A && c == 0x80) || (a == 0xE2 && b == 0x80 && ((0x80 <= c && c
            <= 0x8A) || c == 0xA8 || c == 0xA9 || c == 0xAF)) || (a == 0xE2 && b == 0x81 && c
            == 0x9F) || (a == 0xE3 && b == 0x80 && c == 0x80) {
            assert(is_whitespace_utf8(t.take(3)));
            return 3;
        }
        assert(!is_whitespace_utf8(t.take(3)));
    }
    0
}

/// Whether `s` ends with a whitespace character, and its length.
fn trailing_ws_len(s: &[u8], start: usize, end: usize) -> (k: usize)
    requires
        start <= end <= s@.len(),
    ensures
        k as int == trailing_ws(s@.subrange(start as int, end as int)),
{
    let ghost t = s@.subrange(start as int, end as int);
    let n = end - start;
    if n >= 1 {
        let a = s[end - 1];
        assert(t.skip(t.len() - 1) =~= seq![a]);
        if (a >= 9 && a <= 13) || a == 32 {
            return 1;
        }
    }
    if n >= 2 {
        let a = s[end - 2];
        let b = s[end - 1];
        assert(t.skip(t.len() - 2) =~= seq![a, b]);
        if a == 0xC2 && (b == 0x85 || b == 0xA0) {
            return 2;
        }
    }
    if n >= 3 {
        let a = s[end - 3];
        let b = s[end - 2];
        let c = s[end - 1];
        assert(t.skip(t.len() - 3) =~= seq![a, b, c]);
        if (a == 0xE1 && b == 0x9A && c == 0x80) || (a == 0xE2 && b == 0x80 && ((0x80 <= c && c
            <= 0x8A) || c == 0xA8 || c == 0xA9 || c == 0xAF)) || (a == 0xE2 && b == 0x81 && c
            == 0x9F) || (a == 0xE3 && b == 0x80 && c == 0x80) {
            return 3;
        }
    }
    0
}

/// The bounds of `s[start..end]` with whitespace trimmed from both ends.
fn trim_ws_bounds(s: &[u8], start: usize, end: usize) -> (r: (usize, usize))
    requires
        start <= end <= s@.len(),
    ensures
        start <= r.0 <= r.1 <= end,
        s@.subrange(r.0 as int, r.1 as int) == trim_ws(s@.subrange(start as int, end as int)),
{
    let mut a: usize = start;
    let mut k = leading_ws_len(s, a, end);
    while k > 0 && k <= end - a
        invariant
            start <= a <= end <= s@.len(),
            k as int == leading_ws(s@.subrange(a as int, end as int)),
            trim_start_ws(s@.subrange(a as int, end as int)) == trim_start_ws(
                s@.subrange(start as int, end as int),
            ),
        decreases end - a,
    {
        assert(s@.subrange(a as int, end as int).skip(k as int) =~= s@.subrange(
            a + k,
            end as int,
        ));
        a = a + k;
        k = leading_ws_len(s, a, end);
    }
    let ghost front = s@.subrange(a as int, end as int);
    assert(trim_start_ws(front) == front);
    let mut b: usize = end;
    let mut k = trailing_ws_len(s, a, b);
    while k > 0 && k <= b - a
        invariant
            start <= a <= b <= end <= s@.len(),
            k as int == trailing_ws(s@.subrange(a as int, b as int)),
            trim_end_ws(s@.subrange(a as int, b as int)) == trim_end_ws(front),
            front == s@.subrange(a as int, end as int),
        decreases b - a,
    {
        assert(s@.subrange(a as int, b as int).take(b - a - k) =~= s@.subrange(
            a as int,
            b - k,
        ));
        b = b - k;
        k = trailing_ws_len(s, a, b);
    }
    assert(trim_end_ws(s@.subrange(a as int, b as int)) == s@.subrange(a as int, b as int));
    (a, b)
}

/// `Content-Length:`, byte by byte.
fn length_tag_byte(i: usize) -> (b: u8)
    requires
        i < 15,
    ensures
        b == length_tag()[i as int],
{
    match i {
        0 => 67,
        1 => 111,
        2 => 110,
        3 => 116,
        4 => 101,
        5 => 110,
        6 => 116,
        7 => 45,
        8 => 76,
        9 => 101,
        10 => 110,
        11 => 103,
        12 => 116,
        13 => 104,
        _ => 58,
    }
}

/// The body length after the header line `line[..end]`.
fn next_length(line: &[u8], end: usize, current: Option<usize>) -> (r: Option<usize>)
    requires
        end <= line@.len(),
    ensures
        r == header_length(line@.take(end as int), current),
{
    let ghost t = line@.take(end as int);
    if end < 15 {
        return current;
    }
    let mut i: usize = 0;
    while i < 15
        invariant
            i <= 15 <= end <= line@.len(),
            t == line@.take(end as int),
            forall|j: int| 0 <= j < i ==> t[j] == length_tag()[j],
        decreases 15 - i,
    {
        if line[i] != length_tag_byte(i) {
            assert(t.take(15)[i as int] != length_tag()[i as int]);
            return current;
        }
        i = i + 1;
    }
    assert(t.take(15) =~= length_tag());
    let (a, b) = trim_ws_bounds(line, 15, end);
    assert(line@.subrange(15, end as int) =~= t.skip(15));
    let value: &[u8] = &line[a..b];
    parse_usize_bytes(value)
}

// ---------------------------------------------------------------------
// The header state machine.
// ---------------------------------------------------------------------

/// The state of a header block being read line by line.
///
/// This is the decision half of reading a frame: whoever owns the stream
/// reads a line (through its newline, as `BufRead::read_until` does) and
/// hands it to [`HeaderScan::line`], or reports the end of the stream with
/// [`HeaderScan::at_end`].
pub struct HeaderScan {
    length: Option<usize>,
    saw_header: bool,
}

/// What a header line means for the frame being read.
#[derive(Debug, Clone, Copy, PartialEq, Eq, Structural)]
pub enum HeaderStep {
    /// Still inside the header block.
    More,
    /// The block is closed and the body is this many bytes.
    Body(usize),
    /// The block is closed without a usable `Content-Length`.
    MissingLength,
    /// The line is not UTF-8.
    InvalidUtf8,
}

impl HeaderScan {
    pub closed spec fn length(&self) -> Option<usize> {
        self.length
    }

    pub closed spec fn saw_header(&self) -> bool {
        self.saw_header
    }

    pub fn new() -> (r: Self)
        ensures
            r.length() is None,
            !r.saw_header(),
    {
        HeaderScan { length: None, saw_header: false }
    }

    /// Take one line, as read up to and including its newline.
    pub fn line(&mut self, line: &[u8]) -> (step: HeaderStep)
        requires
            line@.len() > 0,
        ensures
            !valid_utf8(line@) ==> step == HeaderStep::InvalidUtf8 && *final(self) == *old(self),
            valid_utf8(line@) && trim_newlines(line@).len() == 0 ==> *final(self) == *old(self)
                && step == match old(self).length() {
                Some(l) => HeaderStep::Body(l),
                None => HeaderStep::MissingLength,
            },
            valid_utf8(line@) && trim_newlines(line@).len() > 0 ==> step == HeaderStep::More
                && final(self).length() == header_length(trim_newlines(line@), old(self).length())
                && final(self).saw_header(),
    {
        if !is_utf8(line) {
            return HeaderStep::InvalidUtf8;
        }
        let end = trimmed_newline_end(line);
        if end == 0 {
            return match self.length {
                Some(l) => HeaderStep::Body(l),
                None => HeaderStep::MissingLength,
            };
        }
        self.saw_header = true;
        self.length = next_length(line, end, self.length);
        HeaderStep::More
    }

    /// The stream ended where the next header line should start: a clean
    /// end before any header, an error after one.
    pub fn at_end(&self) -> (r: Result<(), FrameError>)
        ensures
            r == if self.saw_header() {
                Err::<(), FrameError>(FrameError::EndedInHeader)
            } else {
                Ok(())
            },
    {
        if self.saw_header {
            Err(FrameError::EndedInHeader)
        } else {
            Ok(())
        }
    }
}

/// Read one framed message body from the front of `reader`, advancing it.
/// `Ok(None)` means a clean end of stream.
pub fn read_message(reader: &mut &[u8]) -> (r: Result<Option<Vec<u8>>, FrameError>)
    ensures
        outcome_view(r) == read_outcome(old(reader)@),
        final(reader)@ == read_rest(old(reader)@),
{
    let input: &[u8] = *reader;
    let ghost s = input@;
    let mut scan = HeaderScan::new();
    let mut off: usize = 0;
    assert(s.skip(0) =~= s);
    loop
        invariant
            s == input@,
            s == old(reader)@,
            off <= s.len(),
            scan_headers(s, None, false) == shift_end(
                scan_headers(s.skip(off as int), scan.length(), scan.saw_header()),
                off as int,
            ),
            off > 0 ==> scan.saw_header(),
        decreases s.len() - off,
    {
        if off == input.len() {
            let rest: &[u8] = &input[off..input.len()];
            proof {
                assert(s.skip(off as int).len() == 0);
                lemma_scan_empty(s.skip(off as int), scan.length(), scan.saw_header());
            }
            match scan.at_end() {
                Ok(()) => {
                    *reader = rest;
                    assert(off == 0);
                    assert(rest@ =~= s);
                    return Ok(None);
                },
                Err(e) => {
                    *reader = rest;
                    assert(rest@ =~= Seq::<u8>::empty());
                    return Err(e);
                },
            }
        }
        let n = line_len_from(input, off);
        let line: &[u8] = &input[off..off + n];
        let ghost t = s.skip(off as int);
        assert(line@ =~= t.take(n as int));
        let ghost before = scan;
        let step = scan.line(line);
        match step {
            HeaderStep::More => {
                assert(t.skip(n as int) =~= s.skip(off + n));
                proof {
                    lemma_scan_step(t, before.length(), before.saw_header(), off as int);
                }
                off = off + n;
            },
            HeaderStep::Body(len) => {
                proof {
                    lemma_scan_blank(t, before.length(), before.saw_header());
                }
                let start = off + n;
                if len <= input.len() - start {
                    let body = vstd::slice::slice_to_vec(&input[start..start + len]);
                    *reader = &input[start + len..input.len()];
                    assert(body@ =~= s.subrange(start as int, start + len));
                    assert(final(reader)@ =~= s.skip(start + len));
                    return Ok(Some(body));
                } else {
                    *reader = &input[input.len()..input.len()];
                    assert(final(reader)@ =~= Seq::<u8>::empty());
                    return Err(FrameError::TruncatedBody);
                }
            },
            HeaderStep::MissingLength => {
                proof {
                    lemma_scan_blank(t, before.length(), before.saw_header());
                }
                *reader = &input[off + n..input.len()];
                assert(final(reader)@ =~= s.skip(off + n));
                return Err(FrameError::MissingLength);
            },
            HeaderStep::InvalidUtf8 => {
                proof {
                    lemma_scan_bad(t, before.length(), before.saw_header());
                }
                *reader = &input[off + n..input.len()];
                assert(final(reader)@ =~= s.skip(off + n));
                return Err(FrameError::InvalidUtf8);
            },
        }
    }
}

/// Write one framed message body: a `Content-Length` header giving its
/// size in bytes, a blank line, then the body.
pub fn write_message(writer: &mut Vec<u8>, body: &[u8])
    ensures
        final(writer)@ == old(writer)@ + frame(body@),
{
    let mut i: usize = 0;
    while i < 15
        invariant
            i <= 15,
            writer@ == old(writer)@ + length_tag().take(i as int),
        decreases 15 - i,
    {
        writer.push(length_tag_byte(i));
        assert(length_tag().take(i + 1) =~= length_tag().take(i as int).push(length_tag()[i as int]));
        i = i + 1;
    }
    assert(length_tag().take(15) =~= length_tag());
    writer.push(32);
    push_decimal(writer, body.len() as u128);
    writer.push(13);
    writer.push(10);
    writer.push(13);
    writer.push(10);
    let ghost head = writer@;
    writer.extend_from_slice(body);
    assert(writer@ =~= head + body@);
    assert(writer@ =~= old(writer)@ + frame(body@));
}

// ---------------------------------------------------------------------
// The framing law.
// ---------------------------------------------------------------------

/// A line ending in `\r\n` trims to what came before them.
proof fn lemma_trim_crlf(t: Seq<u8>)
    requires
        t.len() > 0,
        t.last() != 13 && t.last() != 10,
    ensures
        trim_newlines(t + seq![13u8, 10]) == t,
{
    let l = t + seq![13u8, 10];
    assert(l.drop_last() =~= t + seq![13u8]);
    assert((t + seq![13u8]).drop_last() =~= t);
    assert(trim_newlines(t + seq![13u8]) == trim_newlines(t));
    assert(trim_newlines(l) == trim_newlines(t + seq![13u8]));
}

/// A space then a decimal number trims to the number.
proof fn lemma_trim_decimal(n: nat)
    ensures
        trim_ws(seq![32u8] + decimal(n)) == decimal(n),
{
    let d = decimal(n);
    lemma_decimal(n);
    let v = seq![32u8] + d;
    assert(v.take(1) =~= seq![32u8]);
    assert(leading_ws(v) == 1);
    assert(v.skip(1) =~= d);
    assert(crate::decimal::is_digit(d[0]));
    assert(d.take(1)[0] == d[0]);
    if d.len() >= 2 {
        assert(d.take(2)[0] == d[0]);
    }
    if d.len() >= 3 {
        assert(d.take(3)[0] == d[0]);
    }
    assert(leading_ws(d) == 0);
    assert(trim_start_ws(d) == d);
    assert(trim_start_ws(v) == d);
    assert(crate::decimal::is_digit(d[d.len() - 1]));
    assert(d.skip(d.len() - 1)[0] == d[d.len() - 1]);
    if d.len() >= 2 {
        assert(d.skip(d.len() - 2)[0] == d[d.len() - 2]);
        assert(crate::decimal::is_digit(d[d.len() - 2]));
    }
    if d.len() >= 3 {
        assert(d.skip(d.len() - 3)[0] == d[d.len() - 3]);
        assert(crate::decimal::is_digit(d[d.len() - 3]));
    }
    assert(trailing_ws(d) == 0);
    assert(trim_end_ws(d) == d);
}

/// The header line `write_message` emits carries the body length.
proof fn lemma_header_line(len: nat)
    requires
        len <= usize::MAX,
    ensures
        ({
            let t = length_tag() + seq![32u8] + decimal(len);
            let line = t + seq![13u8, 10];
            &&& valid_utf8(line)
            &&& trim_newlines(line) == t
            &&& t.len() > 0
            &&& header_length(t, None) == Some(len as usize)
            &&& forall|j: int| 0 <= j < line.len() - 1 ==> line[j] != 10
            &&& line[line.len() - 1] == 10
        }),
{
    let d = decimal(len);
    lemma_decimal(len);
    let t = length_tag() + seq![32u8] + d;
    let line = t + seq![13u8, 10];
    assert forall|j: int| 0 <= j < line.len() implies line[j] < 128 && (j < line.len() - 1
        ==> line[j] != 10) by {
        if j >= 16 && j < 16 + d.len() {
            assert(line[j] == d[j - 16]);
            assert(crate::decimal::is_digit(d[j - 16]));
        }
    }
    lemma_ascii_utf8(line);
    assert(t.last() == d[d.len() - 1]);
    assert(crate::decimal::is_digit(d[d.len() - 1]));
    lemma_trim_crlf(t);
    assert(t.take(15) =~= length_tag());
    assert(t.skip(15) =~= seq![32u8] + d);
    lemma_trim_decimal(len);
    assert(crate::decimal::unsigned_digits(d) == d);
}

/// Reading a frame back gives exactly the body that was written, whatever
/// bytes it holds and whatever follows it on the stream, and leaves the
/// stream at what follows: lengths count bytes, so a multi-byte character
/// in one message cannot desynchronise the next.
pub proof fn lemma_read_after_write(body: Seq<u8>, rest: Seq<u8>)
    requires
        body.len() <= usize::MAX,
    ensures
        read_outcome(frame(body) + rest) == Ok::<Option<Seq<u8>>, FrameError>(Some(body)),
        read_rest(frame(body) + rest) == rest,
{
    let h = written_header(body.len());
    let s = frame(body) + rest;
    assert(s =~= h + (body + rest));
    lemma_scan_written_header(body.len(), body + rest);
    let k: int = h.len() as int;
    let l: int = body.len() as int;
    assert(s.subrange(k, k + l) =~= body);
    assert(s.skip(k + l) =~= rest);
}

/// A header scan ends cleanly only on an empty stream before any header,
/// and every other end lies within the stream.
proof fn lemma_scan_shape(s: Seq<u8>, length: Option<usize>, saw: bool)
    ensures
        (scan_headers(s, length, saw) is Clean) <==> (s.len() == 0 && !saw),
        match scan_headers(s, length, saw) {
            HeaderEnd::InvalidUtf8(k) => 0 < k <= s.len(),
            HeaderEnd::MissingLength(k) => 0 < k <= s.len(),
            HeaderEnd::Body(_, k) => 0 < k <= s.len(),
            _ => true,
        },
    decreases s.len(),
{
    reveal(scan_headers);
    if s.len() > 0 {
        lemma_first_line_len_bounds(s);
        let n = first_line_len(s);
        let line = s.take(n);
        if valid_utf8(line) && trim_newlines(line).len() > 0 {
            lemma_scan_shape(s.skip(n), header_length(trim_newlines(line), length), true);
        }
    }
}

/// Reading takes one message from the front of the stream: the clean end
/// comes only from an empty stream, what is left is always the stream's
/// tail, and a body read is the bytes just before that tail. An empty
/// stream yields nothing and leaves nothing.
pub proof fn lemma_read_takes_from_the_front(s: Seq<u8>)
    ensures
        (read_outcome(s) == Ok::<Option<Seq<u8>>, FrameError>(None)) <==> s.len() == 0,
        s.len() == 0 ==> read_rest(s) == s,
        read_rest(s).len() <= s.len(),
        read_rest(s) == s.skip(s.len() - read_rest(s).len()),
        forall|b: Seq<u8>|
            read_outcome(s) == Ok::<Option<Seq<u8>>, FrameError>(Some(b)) ==> {
                &&& b.len() + read_rest(s).len() < s.len()
                &&& s.subrange(s.len() - read_rest(s).len() - b.len(), s.len() - read_rest(s).len())
                    == b
            },
{
    lemma_scan_shape(s, None, false);
    match scan_headers(s, None, false) {
        HeaderEnd::Body(l, k) => {
            if k + l <= s.len() {
                assert(s.skip(k + l).len() == s.len() - k - l);
                assert(s.skip(s.len() - (s.len() - k - l)) =~= s.skip(k + l));
            } else {
                assert(s.skip(s.len() - 0) =~= Seq::<u8>::empty());
            }
        },
        HeaderEnd::InvalidUtf8(k) => {
            assert(s.skip(s.len() - (s.len() - k)) =~= s.skip(k));
        },
        HeaderEnd::MissingLength(k) => {
            assert(s.skip(s.len() - (s.len() - k)) =~= s.skip(k));
        },
        HeaderEnd::EndedInHeader => {
            assert(s.skip(s.len() - 0) =~= Seq::<u8>::empty());
        },
        HeaderEnd::Clean => {
            assert(s.skip(0) =~= s);
        },
    }
}

/// The header `write_message` puts before a body of `len` bytes.
pub open spec fn written_header(len: nat) -> Seq<u8> {
    length_tag() + seq![32u8] + decimal(len) + seq![13u8, 10, 13, 10]
}

/// A blank line closes a header block that has seen its length.
proof fn lemma_blank_line_closes(tail: Seq<u8>, len: usize)
    ensures
        scan_headers(seq![13u8, 10] + tail, Some(len), true) == HeaderEnd::Body(len, 2),
{
    let after = seq![13u8, 10] + tail;
    lemma_first_line_len_at(after, 1);
    assert(after.take(2) =~= seq![13u8, 10]);
    lemma_ascii_utf8(after.take(2));
    let crlf = seq![13u8, 10];
    assert(crlf.drop_last() =~= seq![13u8]);
    assert(seq![13u8].drop_last() =~= Seq::<u8>::empty());
    assert(trim_newlines(seq![13u8]) == trim_newlines(Seq::<u8>::empty()));
    assert(trim_newlines(crlf) == trim_newlines(seq![13u8]));
    lemma_scan_blank(after, Some(len), true);
}

/// Where the header line and the blank line of a written header sit.
proof fn lemma_written_layout(len: nat, tail: Seq<u8>)
    ensures
        ({
            let line = length_tag() + seq![32u8] + decimal(len) + seq![13u8, 10];
            let s = written_header(len) + tail;
            &&& s.take(line.len() as int) == line
            &&& s.skip(line.len() as int) == seq![13u8, 10] + tail
        }),
{
    let line = length_tag() + seq![32u8] + decimal(len) + seq![13u8, 10];
    let s = written_header(len) + tail;
    assert(s =~= line + (seq![13u8, 10] + tail));
    assert(s.take(line.len() as int) =~= line);
    assert(s.skip(line.len() as int) =~= seq![13u8, 10] + tail);
}

/// A written header is read as announcing its length, whatever follows.
proof fn lemma_scan_written_header(len: nat, tail: Seq<u8>)
    requires
        len <= usize::MAX,
    ensures
        scan_headers(written_header(len) + tail, None, false) == HeaderEnd::Body(
            len as usize,
            written_header(len).len() as int,
        ),
{
    lemma_header_line(len);
    lemma_written_layout(len, tail);
    let t = length_tag() + seq![32u8] + decimal(len);
    let line = t + seq![13u8, 10];
    let n1: int = line.len() as int;
    let s = written_header(len) + tail;
    assert forall|j: int| 0 <= j < n1 - 1 implies s[j] != 10 by {
        assert(s.take(n1)[j] == s[j]);
    }
    assert(s.take(n1)[n1 - 1] == s[n1 - 1]);
    lemma_first_line_len_at(s, n1 - 1);
    lemma_scan_step(s, None, false, 0);
    lemma_blank_line_closes(tail, len as usize);
    assert(written_header(len).len() == n1 + 2);
}

/// A stream that ends part-way through a written body is an error, never
/// a shorter message: a truncated frame cannot be told from a desync.
pub proof fn lemma_a_cut_body_is_an_error(body: Seq<u8>, n: int)
    requires
        body.len() <= usize::MAX,
        frame(body).len() - body.len() <= n < frame(body).len(),
    ensures
        read_outcome(frame(body).take(n)) == Err::<Option<Seq<u8>>, FrameError>(
            FrameError::TruncatedBody,
        ),
{
    let h = written_header(body.len());
    assert(frame(body) =~= h + body);
    let cut = frame(body).take(n);
    assert(cut =~= h + body.take(n - h.len()));
    lemma_scan_written_header(body.len(), body.take(n - h.len()));
}

} // verus!
