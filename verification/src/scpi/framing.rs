use crate::error::{Error, Result};
use vstd::prelude::*;
use vstd::string::StringSliceAdditionalSpecFns;
use vstd::utf8::valid_utf8;

verus! {

/// What can be read off an accumulated buffer.
pub enum FrameOutcome {
    /// No complete response yet: more bytes are needed.
    NeedMore,
    /// The buffer can never frame a response; the message says why.
    Malformed(Seq<char>),
    /// A complete response: its payload and the number of buffer bytes it used.
    Framed { payload: Seq<u8>, consumed: int },
}

pub open spec fn is_ascii_digit(b: u8) -> bool {
    0x30 <= b <= 0x39
}

pub open spec fn all_ascii_digits(s: Seq<u8>) -> bool {
    forall|i: int| 0 <= i < s.len() ==> is_ascii_digit(#[trigger] s[i])
}

/// Decimal value of a run of ASCII digits, most significant first.
pub open spec fn decimal_value(s: Seq<u8>) -> nat
    decreases s.len(),
{
    if s.len() == 0 {
        0
    } else {
        decimal_value(s.drop_last()) * 10 + (s.last() - 0x30) as nat
    }
}

/// The unsigned number written by `s` in Rust's decimal syntax: an optional `+`,
/// then at least one ASCII digit.
pub open spec fn parse_decimal(s: Seq<u8>) -> Option<nat> {
    if s.len() >= 2 && s[0] == 0x2b && all_ascii_digits(s.skip(1)) {
        Some(decimal_value(s.skip(1)))
    } else if s.len() >= 1 && all_ascii_digits(s) {
        Some(decimal_value(s))
    } else {
        None
    }
}

/// `needle` occurs in `haystack` at `i`.
pub open spec fn matches_at(haystack: Seq<u8>, needle: Seq<u8>, i: int) -> bool {
    0 <= i && i + needle.len() <= haystack.len() && haystack.subrange(i, i + needle.len()) == needle
}

/// The first occurrence of `needle` in `haystack` at or after `i`.
pub open spec fn find_from(haystack: Seq<u8>, needle: Seq<u8>, i: int) -> Option<int>
    decreases haystack.len() + 1 - i,
{
    if i < 0 || i + needle.len() > haystack.len() {
        None
    } else if matches_at(haystack, needle, i) {
        Some(i)
    } else {
        find_from(haystack, needle, i + 1)
    }
}

/// The first position of byte `b` in `s` at or after `i`.
pub open spec fn find_byte_from(s: Seq<u8>, b: u8, i: int) -> Option<int>
    decreases s.len() - i,
{
    if i < 0 || i >= s.len() {
        None
    } else if s[i] == b {
        Some(i)
    } else {
        find_byte_from(s, b, i + 1)
    }
}

proof fn lemma_find_byte_from_bounds(s: Seq<u8>, b: u8, i: int)
    ensures
        find_byte_from(s, b, i) matches Some(p) ==> i <= p < s.len() && s[p] == b && 0 <= p,
    decreases s.len() - i,
{
    if 0 <= i < s.len() && s[i] != b {
        lemma_find_byte_from_bounds(s, b, i + 1);
    }
}

proof fn lemma_find_from_bounds(h: Seq<u8>, n: Seq<u8>, i: int)
    ensures
        find_from(h, n, i) matches Some(p) ==> i <= p && 0 <= p && p + n.len() <= h.len()
            && matches_at(h, n, p),
    decreases h.len() + 1 - i,
{
    if 0 <= i && i + n.len() <= h.len() && !matches_at(h, n, i) {
        lemma_find_from_bounds(h, n, i + 1);
    }
}

/// Message of the error that `std::str::from_utf8` reports for `bytes`.
pub uninterp spec fn spec_utf8_error_text(bytes: Seq<u8>) -> Seq<char>;

pub open spec fn block_digit_count_message() -> Seq<char> {
    "invalid block digit count"@
}

pub open spec fn block_length_message() -> Seq<char> {
    "invalid block length"@
}

/// `#0<data>\n`: the data up to the first newline after the header.
pub open spec fn indefinite_block(buf: Seq<u8>) -> FrameOutcome {
    match find_byte_from(buf, 0x0a, 2) {
        Some(p) => FrameOutcome::Framed { payload: buf.subrange(2, p), consumed: p + 1 },
        None => FrameOutcome::NeedMore,
    }
}

/// `#<d><len><data>`: `d` digits of decimal length, then exactly that many data bytes.
pub open spec fn definite_block(buf: Seq<u8>) -> FrameOutcome {
    let d = buf[1] - 0x30;
    let len_end = 2 + d;
    if buf.len() < len_end {
        FrameOutcome::NeedMore
    } else {
        let field = buf.subrange(2, len_end);
        if !valid_utf8(field) {
            FrameOutcome::Malformed(spec_utf8_error_text(field))
        } else {
            match parse_decimal(field) {
                None => FrameOutcome::Malformed(block_length_message()),
                Some(n) => if buf.len() < len_end + n {
                    FrameOutcome::NeedMore
                } else {
                    FrameOutcome::Framed {
                        payload: buf.subrange(len_end, len_end + n),
                        consumed: len_end + n,
                    }
                },
            }
        }
    }
}

/// An IEEE 488.2 block response starting with `#`.
pub open spec fn block_response(buf: Seq<u8>) -> FrameOutcome {
    if buf.len() < 2 {
        FrameOutcome::NeedMore
    } else if !is_ascii_digit(buf[1]) {
        FrameOutcome::Malformed(block_digit_count_message())
    } else if buf[1] == 0x30 {
        indefinite_block(buf)
    } else {
        definite_block(buf)
    }
}

/// A response ended by the terminator, or else by a newline.
pub open spec fn terminated_response(buf: Seq<u8>, term: Seq<u8>) -> FrameOutcome {
    if term.len() == 0 {
        FrameOutcome::Framed { payload: buf, consumed: buf.len() as int }
    } else {
        match find_from(buf, term, 0) {
            Some(p) => FrameOutcome::Framed { payload: buf.take(p), consumed: p + term.len() },
            None => match find_byte_from(buf, 0x0a, 0) {
                Some(p) => FrameOutcome::Framed { payload: buf.take(p), consumed: p + 1 },
                None => FrameOutcome::NeedMore,
            },
        }
    }
}

/// The first complete SCPI response held by `buf`.
pub open spec fn frame_response(buf: Seq<u8>, term: Seq<u8>) -> FrameOutcome {
    if buf.len() == 0 {
        FrameOutcome::NeedMore
    } else if buf[0] == 0x23 {
        block_response(buf)
    } else {
        terminated_response(buf, term)
    }
}

/// The library's result for an outcome of `frame_response`.
pub open spec fn frame_result_matches(r: Result<(Vec<u8>, usize)>, o: FrameOutcome) -> bool {
    match o {
        FrameOutcome::NeedMore => r matches Err(Error::Timeout),
        FrameOutcome::Malformed(m) => r matches Err(Error::Parse(msg)) && msg@ == m,
        FrameOutcome::Framed { payload, consumed } => r matches Ok((p, c)) && p@ == payload
            && c == consumed,
    }
}

/// `std::str::from_utf8`: `None` when the bytes are valid UTF-8, else the message of
/// the error it reports.
#[verifier::external_body]
fn utf8_error_message(bytes: &[u8]) -> (r: Option<String>)
    ensures
        r is None <==> valid_utf8(bytes@),
        r matches Some(m) ==> m@ == spec_utf8_error_text(bytes@),
{
    match std::str::from_utf8(bytes) {
        Ok(_) => None,
        Err(e) => Some(e.to_string()),
    }
}

fn copy_range(buf: &[u8], start: usize, end: usize) -> (r: Vec<u8>)
    requires
        start <= end <= buf@.len(),
    ensures
        r@ == buf@.subrange(start as int, end as int),
{
    let mut out: Vec<u8> = Vec::new();
    let mut i = start;
    while i < end
        invariant
            start <= i <= end <= buf@.len(),
            out@ == buf@.subrange(start as int, i as int),
        decreases end - i,
    {
        out.push(buf[i]);
        i = i + 1;
        assert(out@ =~= buf@.subrange(start as int, i as int));
    }
    out
}

/// Ten to the power `n`.
pub open spec fn pow10(n: nat) -> nat
    decreases n,
{
    if n == 0 {
        1
    } else {
        10 * pow10((n - 1) as nat)
    }
}

proof fn lemma_pow10_monotonic(a: nat, b: nat)
    requires
        a <= b,
    ensures
        pow10(a) <= pow10(b),
    decreases b,
{
    if a < b {
        lemma_pow10_monotonic(a, (b - 1) as nat);
    }
}

proof fn lemma_decimal_bound(s: Seq<u8>)
    requires
        all_ascii_digits(s),
    ensures
        decimal_value(s) < pow10(s.len()),
    decreases s.len(),
{
    if s.len() > 0 {
        let t = s.drop_last();
        assert(all_ascii_digits(t)) by {
            assert forall|i: int| 0 <= i < t.len() implies is_ascii_digit(#[trigger] t[i]) by {
                assert(t[i] == s[i]);
            }
        }
        lemma_decimal_bound(t);
        assert(is_ascii_digit(s[s.len() - 1]));
        let p = pow10(t.len());
        assert(decimal_value(t) + 1 <= p);
        assert(decimal_value(s) == decimal_value(t) * 10 + (s.last() - 0x30) as nat);
        assert((decimal_value(t) + 1) * 10 <= p * 10) by (nonlinear_arith)
            requires
                decimal_value(t) + 1 <= p,
        ;
        assert(pow10(s.len()) == 10 * p);
    }
}

/// Parses an ASCII decimal field of at most nine bytes.
fn parse_decimal_field(field: &[u8]) -> (r: Option<usize>)
    requires
        field@.len() <= 9,
    ensures
        match parse_decimal(field@) {
            Some(n) => r == Some(n as usize) && n < 1_000_000_000,
            None => r is None,
        },
{
    let len = field.len();
    let mut start: usize = 0;
    if len >= 2 && field[0] == 0x2b {
        start = 1;
    }
    if start >= len {
        return None;
    }
    let ghost digits = field@.skip(start as int);
    let mut value: usize = 0;
    let mut i = start;
    while i < len
        invariant
            start <= i <= len,
            len == field@.len(),
            len <= 9,
            start <= 1,
            start == 1 ==> len >= 2 && field@[0] == 0x2b,
            start == 0 ==> !(len >= 2 && field@[0] == 0x2b),
            digits == field@.skip(start as int),
            all_ascii_digits(field@.subrange(start as int, i as int)),
            value as nat == decimal_value(field@.subrange(start as int, i as int)),
            value < pow10((i - start) as nat),
        decreases len - i,
    {
        let b = field[i];
        if b < 0x30 || b > 0x39 {
            proof {
                let k = i - start;
                assert(digits[k as int] == b);
                if start == 1 {
                    assert(field@[0] == 0x2b);
                    assert(!is_ascii_digit(field@[0]));
                }
            }
            return None;
        }
        proof {
            let prev = field@.subrange(start as int, i as int);
            let next = field@.subrange(start as int, i + 1);
            assert(next.drop_last() =~= prev);
            assert(next.last() == b);
            assert(all_ascii_digits(next)) by {
                assert forall|j: int| 0 <= j < next.len() implies is_ascii_digit(#[trigger] next[j]) by {
                    if j < prev.len() {
                        assert(next[j] == prev[j]);
                    }
                }
            }
            lemma_decimal_bound(next);
            lemma_pow10_monotonic((i + 1 - start) as nat, 9);
            reveal_with_fuel(pow10, 10);
        }
        value = value * 10 + (b - 0x30) as usize;
        i = i + 1;
    }
    proof {
        assert(field@.subrange(start as int, len as int) =~= digits);
        if start == 0 {
            assert(digits =~= field@);
        } else {
            assert(len >= 2 && field@[0] == 0x2b);
        }
        assert(value < 1_000_000_000) by {
            lemma_pow10_monotonic((i - start) as nat, 9);
            reveal_with_fuel(pow10, 10);
        }
    }
    Some(value)
}

/// Finds the first position of `b` in `buf` at or after `from`.
fn position_of_byte(buf: &[u8], b: u8, from: usize) -> (r: Option<usize>)
    requires
        from <= buf@.len(),
    ensures
        match find_byte_from(buf@, b, from as int) {
            Some(p) => r == Some(p as usize),
            None => r is None,
        },
        r matches Some(p) ==> from <= p < buf@.len(),
        find_byte_from(buf@, b, from as int) matches Some(p) ==> from <= p < buf@.len(),
{
    proof {
        lemma_find_byte_from_bounds(buf@, b, from as int);
    }
    let mut i = from;
    while i < buf.len()
        invariant
            from <= i <= buf@.len(),
            find_byte_from(buf@, b, from as int) == find_byte_from(buf@, b, i as int),
        decreases buf@.len() - i,
    {
        if buf[i] == b {
            return Some(i);
        }
        i = i + 1;
    }
    None
}

/// Finds the first occurrence of a non-empty `needle` in `haystack`.
fn find_subslice(haystack: &[u8], needle: &[u8]) -> (r: Option<usize>)
    requires
        needle@.len() > 0,
    ensures
        match find_from(haystack@, needle@, 0) {
            Some(p) => r == Some(p as usize),
            None => r is None,
        },
        r matches Some(p) ==> p + needle@.len() <= haystack@.len(),
        find_from(haystack@, needle@, 0) matches Some(p) ==> 0 <= p && p + needle@.len()
            <= haystack@.len(),
{
    proof {
        lemma_find_from_bounds(haystack@, needle@, 0);
    }
    if haystack.len() < needle.len() {
        return None;
    }
    let n = needle.len();
    let last = haystack.len() - n;
    let mut i: usize = 0;
    while i <= last
        invariant
            n == needle@.len(),
            n > 0,
            last + n == haystack@.len(),
            haystack@.len() <= usize::MAX,
            i <= last + 1,
            find_from(haystack@, needle@, 0) == find_from(haystack@, needle@, i as int),
        decreases last + 1 - i,
    {
        let mut j: usize = 0;
        let mut same = true;
        while j < n
            invariant
                n == needle@.len(),
                i <= last,
                last + n == haystack@.len(),
                haystack@.len() <= usize::MAX,
                j <= n,
                same == (forall|k: int| 0 <= k < j ==> haystack@[i + k] == needle@[k]),
            decreases n - j,
        {
            if haystack[i + j] != needle[j] {
                same = false;
            }
            j = j + 1;
        }
        proof {
            let window = haystack@.subrange(i as int, i + n);
            if same {
                assert(window =~= needle@);
            } else {
                assert(window != needle@) by {
                    let k = choose|k: int| 0 <= k < n && haystack@[i + k] != needle@[k];
                    assert(window[k] == haystack@[i + k]);
                }
            }
        }
        if same {
            return Some(i);
        }
        i = i + 1;
    }
    None
}

fn read_indefinite_block(buffer: &[u8]) -> (r: Result<(Vec<u8>, usize)>)
    requires
        buffer@.len() >= 2,
    ensures
        frame_result_matches(r, indefinite_block(buffer@)),
{
    let _len = buffer.len();
    match position_of_byte(buffer, 0x0a, 2) {
        Some(pos) => {
            let payload = copy_range(buffer, 2, pos);
            Ok((payload, pos + 1))
        },
        None => Err(Error::Timeout),
    }
}

fn read_block_response(buffer: &[u8]) -> (r: Result<(Vec<u8>, usize)>)
    requires
        buffer@.len() >= 1,
    ensures
        frame_result_matches(r, block_response(buffer@)),
{
    if buffer.len() < 2 {
        return Err(Error::Timeout);
    }
    let c = buffer[1];
    if c < 0x30 || c > 0x39 {
        return Err(Error::Parse("invalid block digit count".to_owned()));
    }
    let digit_count = (c - 0x30) as usize;
    if digit_count == 0 {
        return read_indefinite_block(buffer);
    }
    let len_end = 2 + digit_count;
    if buffer.len() < len_end {
        return Err(Error::Timeout);
    }
    let field = copy_range(buffer, 2, len_end);
    if let Some(message) = utf8_error_message(field.as_slice()) {
        return Err(Error::Parse(message));
    }
    let data_len = match parse_decimal_field(field.as_slice()) {
        Some(n) => n,
        None => {
            return Err(Error::Parse("invalid block length".to_owned()));
        },
    };
    let data_end = len_end + data_len;
    if buffer.len() < data_end {
        return Err(Error::Timeout);
    }
    let payload = copy_range(buffer, len_end, data_end);
    Ok((payload, data_end))
}

fn read_terminator_response(buffer: &[u8], terminator: &[u8]) -> (r: Result<(Vec<u8>, usize)>)
    ensures
        frame_result_matches(r, terminated_response(buffer@, terminator@)),
{
    let _len = buffer.len();
    if terminator.len() == 0 {
        let all = copy_range(buffer, 0, buffer.len());
        assert(buffer@.subrange(0, buffer@.len() as int) =~= buffer@);
        return Ok((all, buffer.len()));
    }
    if let Some(pos) = find_subslice(buffer, terminator) {
        let payload = copy_range(buffer, 0, pos);
        assert(buffer@.subrange(0, pos as int) =~= buffer@.take(pos as int));
        return Ok((payload, pos + terminator.len()));
    }
    if let Some(pos) = position_of_byte(buffer, 0x0a, 0) {
        let payload = copy_range(buffer, 0, pos);
        assert(buffer@.subrange(0, pos as int) =~= buffer@.take(pos as int));
        return Ok((payload, pos + 1));
    }
    Err(Error::Timeout)
}

/// Reads a complete SCPI response from accumulated bytes using IEEE 488.2 block framing.
///
/// A buffer starting with `#` is a block (`#0...\n`, or `#<d><len><data>`); any other
/// buffer holds a response ended by the terminator, or else by a newline. `Timeout`
/// means that more bytes are needed.
pub fn extract_response(buffer: &[u8], terminator: &str) -> (r: Result<(Vec<u8>, usize)>)
    ensures
        frame_result_matches(r, frame_response(buffer@, terminator.spec_bytes())),
{
    if buffer.len() == 0 {
        return Err(Error::Timeout);
    }
    if buffer[0] == 0x23 {
        return read_block_response(buffer);
    }
    read_terminator_response(buffer, terminator.as_bytes())
}

proof fn lemma_find_byte_from_append(s: Seq<u8>, t: Seq<u8>, b: u8, i: int)
    requires
        find_byte_from(s, b, i) is Some,
    ensures
        find_byte_from(s + t, b, i) == find_byte_from(s, b, i),
    decreases s.len() - i,
{
    if 0 <= i < s.len() && s[i] != b {
        assert((s + t)[i] == s[i]);
        lemma_find_byte_from_append(s, t, b, i + 1);
    } else if 0 <= i < s.len() {
        assert((s + t)[i] == s[i]);
    }
}

proof fn lemma_find_from_append(h: Seq<u8>, t: Seq<u8>, n: Seq<u8>, i: int)
    requires
        find_from(h, n, i) is Some,
    ensures
        find_from(h + t, n, i) == find_from(h, n, i),
    decreases h.len() + 1 - i,
{
    if 0 <= i && i + n.len() <= h.len() {
        assert((h + t).subrange(i, i + n.len()) =~= h.subrange(i, i + n.len()));
        if !matches_at(h, n, i) {
            lemma_find_from_append(h, t, n, i + 1);
        }
    }
}

proof fn lemma_ascii_digits_valid_utf8(s: Seq<u8>)
    requires
        all_ascii_digits(s),
    ensures
        valid_utf8(s),
{
    assert(s.subrange(0, 0) =~= Seq::<u8>::empty());
    assert(valid_utf8(Seq::<u8>::empty()));
    assert forall|i: int| 0 <= 0 <= i < s.len() <= s.len() implies
        #[trigger] vstd::utf8::is_leading_byte_width_1(s[i]) by {
        assert(is_ascii_digit(s[i]));
    }
    vstd::utf8::partial_valid_utf8_extend_ascii_block(s, 0, s.len() as int);
    assert(s.subrange(0, s.len() as int) =~= s);
}

/// A definite-length block is framed by its declared length alone: its payload comes
/// back whole, terminator and newline bytes included, whatever follows it.
pub proof fn lemma_definite_block_intact(
    length_digits: Seq<u8>,
    payload: Seq<u8>,
    rest: Seq<u8>,
    term: Seq<u8>,
)
    requires
        1 <= length_digits.len() <= 9,
        all_ascii_digits(length_digits),
        decimal_value(length_digits) == payload.len(),
    ensures
        frame_response(
            seq![0x23u8, (0x30 + length_digits.len()) as u8] + length_digits + payload + rest,
            term,
        ) == (FrameOutcome::Framed {
            payload,
            consumed: (2 + length_digits.len() + payload.len()) as int,
        }),
{
    let head = seq![0x23u8, (0x30 + length_digits.len()) as u8];
    let buf = head + length_digits + payload + rest;
    let d = length_digits.len() as int;
    assert(buf[0] == 0x23u8);
    assert(buf[1] == (0x30 + d) as u8);
    assert(buf.subrange(2, 2 + d) =~= length_digits);
    lemma_ascii_digits_valid_utf8(length_digits);
    assert(!(length_digits.len() >= 2 && length_digits[0] == 0x2b)) by {
        if length_digits.len() >= 2 {
            assert(is_ascii_digit(length_digits[0]));
        }
    }
    assert(parse_decimal(length_digits) == Some(decimal_value(length_digits)));
    assert(buf.subrange(2 + d, 2 + d + payload.len()) =~= payload);
}

/// `n` written with exactly `d` decimal digits (bytes `0`..`9`), most significant
/// first, with leading zeros.
pub open spec fn decimal_digits(n: nat, d: nat) -> Seq<u8>
    decreases d,
{
    if d == 0 {
        Seq::empty()
    } else {
        decimal_digits(n / 10, (d - 1) as nat).push((0x30 + n % 10) as u8)
    }
}

proof fn lemma_decimal_digits(n: nat, d: nat)
    requires
        n < pow10(d),
    ensures
        decimal_digits(n, d).len() == d,
        all_ascii_digits(decimal_digits(n, d)),
        decimal_value(decimal_digits(n, d)) == n,
    decreases d,
{
    if d == 0 {
        assert(n == 0);
    } else {
        let p = pow10((d - 1) as nat);
        assert(n / 10 < p) by (nonlinear_arith)
            requires
                n < 10 * p,
        ;
        lemma_decimal_digits(n / 10, (d - 1) as nat);
        let s = decimal_digits(n, d);
        let prev = decimal_digits(n / 10, (d - 1) as nat);
        assert(s.drop_last() =~= prev);
        assert(s.last() == (0x30 + n % 10) as u8);
        assert(0 <= n % 10 < 10);
        assert(n == (n / 10) * 10 + n % 10) by (nonlinear_arith);
        assert(decimal_value(s) == decimal_value(prev) * 10 + (s.last() - 0x30) as nat);
        assert forall|i: int| 0 <= i < s.len() implies is_ascii_digit(#[trigger] s[i]) by {
            if i < s.len() - 1 {
                assert(s[i] == prev[i]);
            }
        }
    }
}

/// Every length from `0` up to `10^d - 1` written with `d` digits (`1 <= d <= 9`),
/// zeros included, heads a definite-length block: `#`, the digit `d`, the `d` length
/// digits, then `n` data bytes frame exactly those bytes, consuming `2 + d + n`,
/// whatever follows.
pub proof fn lemma_definite_block_length(d: nat, n: nat, data: Seq<u8>, rest: Seq<u8>, term: Seq<u8>)
    requires
        1 <= d <= 9,
        n < pow10(d),
        data.len() == n,
    ensures
        frame_response(seq![0x23u8, (0x30 + d) as u8] + decimal_digits(n, d) + data + rest, term)
            == (FrameOutcome::Framed { payload: data, consumed: (2 + d + n) as int }),
{
    lemma_decimal_digits(n, d);
    lemma_definite_block_intact(decimal_digits(n, d), data, rest, term);
}

/// Once a block response, or a response ended by the (non-empty) terminator, is
/// complete in a buffer, bytes arriving after it do not change what is framed.
pub proof fn lemma_frame_stable_under_append(buf: Seq<u8>, more: Seq<u8>, term: Seq<u8>)
    requires
        frame_response(buf, term) is Framed,
        buf.len() > 0,
        buf[0] == 0x23 || (term.len() > 0 && find_from(buf, term, 0) is Some),
    ensures
        frame_response(buf + more, term) == frame_response(buf, term),
{
    let all = buf + more;
    assert(all[0] == buf[0]);
    if buf[0] == 0x23 {
        assert(all[1] == buf[1]);
        if buf[1] == 0x30 {
            lemma_find_byte_from_append(buf, more, 0x0a, 2);
            lemma_find_byte_from_bounds(buf, 0x0a, 2);
            let p = find_byte_from(buf, 0x0a, 2)->0;
            assert(all.subrange(2, p) =~= buf.subrange(2, p));
        } else {
            let d = buf[1] - 0x30;
            let len_end = 2 + d;
            assert(all.subrange(2, len_end) =~= buf.subrange(2, len_end));
            let n = parse_decimal(buf.subrange(2, len_end))->0;
            assert(all.subrange(len_end, len_end + n) =~= buf.subrange(len_end, len_end + n));
        }
    } else {
        lemma_find_from_append(buf, more, term, 0);
        lemma_find_from_bounds(buf, term, 0);
        let p = find_from(buf, term, 0)->0;
        assert(all.take(p) =~= buf.take(p));
    }
}


proof fn lemma_find_from_first(h: Seq<u8>, n: Seq<u8>, i: int, p: int)
    requires
        0 <= i <= p,
        matches_at(h, n, p),
        forall|j: int| i <= j < p ==> !matches_at(h, n, j),
    ensures
        find_from(h, n, i) == Some(p),
    decreases p - i,
{
    if i < p {
        lemma_find_from_first(h, n, i + 1, p);
    }
}

/// A text response ends at its first terminator: when `text` followed by the
/// (non-empty) terminator does not start with `#` and holds no earlier copy of the
/// terminator, then `text`, the terminator and whatever follows frame exactly `text`,
/// consuming the text and the terminator.
pub proof fn lemma_terminated_text(text: Seq<u8>, term: Seq<u8>, rest: Seq<u8>)
    requires
        term.len() > 0,
        (text + term)[0] != 0x23,
        forall|i: int| 0 <= i < text.len() ==> #[trigger] (text + term).subrange(i, i + term.len()) != term,
    ensures
        frame_response(text + term + rest, term) == (FrameOutcome::Framed {
            payload: text,
            consumed: (text.len() + term.len()) as int,
        }),
{
    let tt = text + term;
    let buf = tt + rest;
    let p = text.len() as int;
    assert(buf.subrange(p, p + term.len()) =~= term);
    assert forall|j: int| 0 <= j < p implies !matches_at(buf, term, j) by {
        assert(buf.subrange(j, j + term.len()) =~= tt.subrange(j, j + term.len()));
    }
    lemma_find_from_first(buf, term, 0, p);
    assert(buf[0] == tt[0]);
    assert(buf.take(p) =~= text);
}

} // verus!
