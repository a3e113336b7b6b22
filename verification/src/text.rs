//! Character-level text helpers shared by the parsers, each stated over `Seq<char>`.
use vstd::prelude::*;
use vstd::utf8::{decode_utf8, valid_utf8};

verus! {

/// The Unicode `White_Space` property, as used by `str::trim` and `char::is_whitespace`.
pub open spec fn is_whitespace(c: char) -> bool {
    let u = c as u32;
    (0x09 <= u <= 0x0d) || u == 0x20 || u == 0x85 || u == 0xa0 || u == 0x1680 || (0x2000 <= u
        <= 0x200a) || u == 0x2028 || u == 0x2029 || u == 0x202f || u == 0x205f || u == 0x3000
}

/// `s` without its leading whitespace.
pub open spec fn trim_start(s: Seq<char>) -> Seq<char>
    decreases s.len(),
{
    if s.len() > 0 && is_whitespace(s[0]) {
        trim_start(s.drop_first())
    } else {
        s
    }
}

/// `s` without its trailing whitespace.
pub open spec fn trim_end(s: Seq<char>) -> Seq<char>
    decreases s.len(),
{
    if s.len() > 0 && is_whitespace(s.last()) {
        trim_end(s.drop_last())
    } else {
        s
    }
}

/// `s` without leading and trailing whitespace, as `str::trim` returns it.
pub open spec fn trim(s: Seq<char>) -> Seq<char> {
    trim_end(trim_start(s))
}

pub open spec fn starts_with(s: Seq<char>, prefix: Seq<char>) -> bool {
    prefix.len() <= s.len() && s.take(prefix.len() as int) == prefix
}

pub open spec fn ends_with(s: Seq<char>, suffix: Seq<char>) -> bool {
    suffix.len() <= s.len() && s.skip(s.len() - suffix.len()) == suffix
}

/// `needle` occurs in `s` at `i`.
pub open spec fn occurs_at(s: Seq<char>, needle: Seq<char>, i: int) -> bool {
    0 <= i && i + needle.len() <= s.len() && s.subrange(i, i + needle.len()) == needle
}

/// `needle` occurs somewhere in `s` (the empty needle occurs everywhere).
pub open spec fn contains(s: Seq<char>, needle: Seq<char>) -> bool {
    exists|i: int| occurs_at(s, needle, i)
}

/// The first occurrence of a non-empty `needle` in `s` at or after `i`.
pub open spec fn find_chars_from(s: Seq<char>, needle: Seq<char>, i: int) -> Option<int>
    decreases s.len() + 1 - i,
{
    if i < 0 || i + needle.len() > s.len() {
        None
    } else if occurs_at(s, needle, i) {
        Some(i)
    } else {
        find_chars_from(s, needle, i + 1)
    }
}

/// The pieces of `s` between the non-overlapping occurrences of a non-empty `sep`,
/// found from left to right, as `str::split` yields them.
pub open spec fn split(s: Seq<char>, sep: Seq<char>) -> Seq<Seq<char>>
    decreases s.len(),
{
    if sep.len() == 0 {
        seq![s]
    } else {
        match find_chars_from(s, sep, 0) {
            None => seq![s],
            Some(i) => if i + sep.len() <= s.len() && i >= 0 {
                seq![s.take(i)] + split(s.skip(i + sep.len()), sep)
            } else {
                seq![s]
            },
        }
    }
}

/// The result of `str::to_uppercase`, Unicode case mapping included.
pub uninterp spec fn spec_to_uppercase(s: Seq<char>) -> Seq<char>;

/// The result of `str::to_lowercase`, Unicode case mapping included.
pub uninterp spec fn spec_to_lowercase(s: Seq<char>) -> Seq<char>;

/// Whether every character of `s` is ASCII.
pub open spec fn is_ascii_text(s: Seq<char>) -> bool {
    forall|i: int| 0 <= i < s.len() ==> (#[trigger] s[i] as u32) < 128
}

/// `c` with an ASCII lower-case letter made upper-case.
pub open spec fn ascii_upper_char(c: char) -> char {
    if 'a' <= c && c <= 'z' {
        ((c as u32) - 32) as char
    } else {
        c
    }
}

/// `c` with an ASCII upper-case letter made lower-case.
pub open spec fn ascii_lower_char(c: char) -> char {
    if 'A' <= c && c <= 'Z' {
        ((c as u32) + 32) as char
    } else {
        c
    }
}

/// `s` with its ASCII letters upper-cased.
pub open spec fn ascii_upper(s: Seq<char>) -> Seq<char> {
    s.map_values(|c: char| ascii_upper_char(c))
}

/// `s` with its ASCII letters lower-cased.
pub open spec fn ascii_lower(s: Seq<char>) -> Seq<char> {
    s.map_values(|c: char| ascii_lower_char(c))
}

/// `str::to_uppercase`: the Unicode upper-case form of `s`; on ASCII text, each
/// letter `a`..`z` becomes `A`..`Z` and every other character stays.
#[verifier::external_body]
pub fn to_uppercase(s: &str) -> (r: String)
    ensures
        r@ == spec_to_uppercase(s@),
        is_ascii_text(s@) ==> r@ == ascii_upper(s@),
{
    s.to_uppercase()
}

/// `str::to_lowercase`: the Unicode lower-case form of `s`; on ASCII text, each
/// letter `A`..`Z` becomes `a`..`z` and every other character stays.
#[verifier::external_body]
pub fn to_lowercase(s: &str) -> (r: String)
    ensures
        r@ == spec_to_lowercase(s@),
        is_ascii_text(s@) ==> r@ == ascii_lower(s@),
{
    s.to_lowercase()
}

/// `String::from_iter`: the string of the given characters.
#[verifier::external_body]
pub fn string_from_chars(chars: &[char]) -> (r: String)
    ensures
        r@ == chars@,
{
    String::from_iter(chars)
}

/// Whether `c` has the Unicode `White_Space` property.
pub fn is_whitespace_char(c: char) -> (r: bool)
    ensures
        r == is_whitespace(c),
{
    let u = c as u32;
    (0x09 <= u && u <= 0x0d) || u == 0x20 || u == 0x85 || u == 0xa0 || u == 0x1680 || (0x2000
        <= u && u <= 0x200a) || u == 0x2028 || u == 0x2029 || u == 0x202f || u == 0x205f || u
        == 0x3000
}

/// The characters of `s`.
pub fn chars_of(s: &str) -> (v: Vec<char>)
    ensures
        v@ == s@,
{
    let mut v: Vec<char> = Vec::new();
    for c in it: s.chars()
        invariant
            v@ == it.seq().take(it.index() as int),
            it.seq() == s@,
    {
        v.push(c);
    }
    v
}

/// The characters of `v` from `start` up to `end`.
pub fn sub_chars(v: &[char], start: usize, end: usize) -> (r: Vec<char>)
    requires
        start <= end <= v@.len(),
    ensures
        r@ == v@.subrange(start as int, end as int),
{
    let mut out: Vec<char> = Vec::new();
    let mut i = start;
    while i < end
        invariant
            start <= i <= end <= v@.len(),
            out@ == v@.subrange(start as int, i as int),
        decreases end - i,
    {
        out.push(v[i]);
        i = i + 1;
        assert(out@ =~= v@.subrange(start as int, i as int));
    }
    out
}

proof fn lemma_trim_start_suffix(s: Seq<char>, i: int)
    requires
        0 <= i <= s.len(),
        forall|j: int| 0 <= j < i ==> is_whitespace(#[trigger] s[j]),
    ensures
        trim_start(s) == trim_start(s.skip(i)),
    decreases i,
{
    if i > 0 {
        assert(is_whitespace(s[0]));
        let t = s.drop_first();
        assert forall|j: int| 0 <= j < i - 1 implies is_whitespace(#[trigger] t[j]) by {
            assert(t[j] == s[j + 1]);
        }
        lemma_trim_start_suffix(t, i - 1);
        assert(t.skip(i - 1) =~= s.skip(i));
    } else {
        assert(s.skip(0) =~= s);
    }
}

proof fn lemma_trim_end_prefix(s: Seq<char>, e: int)
    requires
        0 <= e <= s.len(),
        forall|j: int| e <= j < s.len() ==> is_whitespace(#[trigger] s[j]),
    ensures
        trim_end(s) == trim_end(s.take(e)),
    decreases s.len() - e,
{
    if e < s.len() {
        assert(is_whitespace(s.last()));
        let t = s.drop_last();
        assert forall|j: int| e <= j < t.len() implies is_whitespace(#[trigger] t[j]) by {
            assert(t[j] == s[j]);
        }
        lemma_trim_end_prefix(t, e);
        assert(t.take(e) =~= s.take(e));
    } else {
        assert(s.take(e) =~= s);
    }
}

/// The bounds of `v` without leading and trailing whitespace.
pub fn trim_bounds(v: &[char]) -> (r: (usize, usize))
    ensures
        r.0 <= r.1 <= v@.len(),
        v@.subrange(r.0 as int, r.1 as int) == trim(v@),
{
    let n = v.len();
    let mut start: usize = 0;
    while start < n && is_whitespace_char(v[start])
        invariant
            start <= n == v@.len(),
            forall|j: int| 0 <= j < start ==> is_whitespace(#[trigger] v@[j]),
        decreases n - start,
    {
        start = start + 1;
    }
    proof {
        lemma_trim_start_suffix(v@, start as int);
        let t = v@.skip(start as int);
        if start < n {
            assert(t[0] == v@[start as int]);
        }
        assert(trim_start(t) == t);
    }
    let mut end: usize = n;
    while end > start && is_whitespace_char(v[end - 1])
        invariant
            start <= end <= n == v@.len(),
            forall|j: int| end <= j < n ==> is_whitespace(#[trigger] v@[j]),
        decreases end,
    {
        end = end - 1;
    }
    proof {
        let t = v@.skip(start as int);
        assert forall|j: int| end - start <= j < t.len() implies is_whitespace(#[trigger] t[j]) by {
            assert(t[j] == v@[j + start]);
        }
        lemma_trim_end_prefix(t, end - start);
        let u = t.take(end - start);
        assert(u =~= v@.subrange(start as int, end as int));
        if end > start {
            assert(u.last() == v@[end - 1]);
        }
        assert(trim_end(u) == u);
    }
    (start, end)
}

/// `s` without leading and trailing whitespace.
pub fn trim_str(s: &str) -> (r: String)
    ensures
        r@ == trim(s@),
{
    let v = chars_of(s);
    let (a, b) = trim_bounds(v.as_slice());
    let t = sub_chars(v.as_slice(), a, b);
    string_from_chars(t.as_slice())
}

/// Whether `v` holds `needle` at `i`.
pub fn chars_occur_at(v: &[char], needle: &[char], i: usize) -> (r: bool)
    ensures
        r == occurs_at(v@, needle@, i as int),
{
    if i > v.len() || needle.len() > v.len() - i {
        return false;
    }
    let mut j: usize = 0;
    while j < needle.len()
        invariant
            i + needle@.len() <= v@.len(),
            v@.len() <= usize::MAX,
            j <= needle@.len(),
            forall|k: int| 0 <= k < j ==> v@[i + k] == needle@[k],
        decreases needle@.len() - j,
    {
        if v[i + j] != needle[j] {
            proof {
                let w = v@.subrange(i as int, i + needle@.len());
                assert(w[j as int] != needle@[j as int]);
            }
            return false;
        }
        j = j + 1;
    }
    assert(v@.subrange(i as int, i + needle@.len()) =~= needle@);
    true
}

/// Whether `s` starts with `prefix`.
pub fn chars_start_with(s: &[char], prefix: &[char]) -> (r: bool)
    ensures
        r == starts_with(s@, prefix@),
{
    let r = chars_occur_at(s, prefix, 0);
    proof {
        if prefix@.len() <= s@.len() {
            assert(s@.subrange(0, prefix@.len() as int) =~= s@.take(prefix@.len() as int));
        }
    }
    r
}

/// Whether `s` ends with `suffix`.
pub fn chars_end_with(s: &[char], suffix: &[char]) -> (r: bool)
    ensures
        r == ends_with(s@, suffix@),
{
    if suffix.len() > s.len() {
        return false;
    }
    let r = chars_occur_at(s, suffix, s.len() - suffix.len());
    proof {
        let i = s@.len() - suffix@.len();
        assert(s@.subrange(i, i + suffix@.len()) =~= s@.skip(i));
    }
    r
}

proof fn lemma_find_chars_bounds(s: Seq<char>, n: Seq<char>, i: int)
    ensures
        find_chars_from(s, n, i) matches Some(p) ==> i <= p && 0 <= p && p + n.len() <= s.len()
            && occurs_at(s, n, p),
    decreases s.len() + 1 - i,
{
    if 0 <= i && i + n.len() <= s.len() && !occurs_at(s, n, i) {
        lemma_find_chars_bounds(s, n, i + 1);
    }
}

/// The first occurrence of `needle` in `s` at or after `from`.
pub fn find_chars(s: &[char], needle: &[char], from: usize) -> (r: Option<usize>)
    ensures
        match find_chars_from(s@, needle@, from as int) {
            Some(p) => r == Some(p as usize),
            None => r is None,
        },
        find_chars_from(s@, needle@, from as int) matches Some(p) ==> from <= p && p
            + needle@.len() <= s@.len(),
{
    proof {
        lemma_find_chars_bounds(s@, needle@, from as int);
    }
    if needle.len() > s.len() || from > s.len() - needle.len() {
        return None;
    }
    let last = s.len() - needle.len();
    let mut i = from;
    while i <= last
        invariant
            from <= i,
            i <= last + 1,
            last + needle@.len() == s@.len(),
            s@.len() <= usize::MAX,
            find_chars_from(s@, needle@, from as int) == find_chars_from(s@, needle@, i as int),
        decreases last + 1 - i,
    {
        if chars_occur_at(s, needle, i) {
            return Some(i);
        }
        if i == last {
            assert(find_chars_from(s@, needle@, i + 1) is None);
            return None;
        }
        i = i + 1;
    }
    None
}

proof fn lemma_contains_first(s: Seq<char>, n: Seq<char>)
    ensures
        contains(s, n) <==> find_chars_from(s, n, 0) is Some,
{
    lemma_find_chars_bounds(s, n, 0);
    if contains(s, n) {
        let w = choose|i: int| occurs_at(s, n, i);
        lemma_no_earlier_means_found(s, n, 0, w);
    }
}

proof fn lemma_no_earlier_means_found(s: Seq<char>, n: Seq<char>, i: int, w: int)
    requires
        0 <= i <= w,
        occurs_at(s, n, w),
    ensures
        find_chars_from(s, n, i) is Some,
    decreases w - i,
{
    if !occurs_at(s, n, i) {
        lemma_no_earlier_means_found(s, n, i + 1, w);
    }
}

/// Whether `needle` occurs in `s`.
pub fn chars_contain(s: &[char], needle: &[char]) -> (r: bool)
    ensures
        r == contains(s@, needle@),
{
    proof {
        lemma_contains_first(s@, needle@);
    }
    find_chars(s, needle, 0).is_some()
}

pub open spec fn is_digit_char(c: char) -> bool {
    '0' <= c <= '9'
}

pub open spec fn all_digit_chars(s: Seq<char>) -> bool {
    forall|i: int| 0 <= i < s.len() ==> is_digit_char(#[trigger] s[i])
}

/// Decimal value of a run of ASCII digits, most significant first.
pub open spec fn digits_value(s: Seq<char>) -> nat
    decreases s.len(),
{
    if s.len() == 0 {
        0
    } else {
        digits_value(s.drop_last()) * 10 + (s.last() as u32 - '0' as u32) as nat
    }
}

/// The unsigned number that Rust's `FromStr` for unsigned integers reads from `s`
/// (an optional `+`, then at least one ASCII digit), before the range check.
pub open spec fn unsigned_value(s: Seq<char>) -> Option<nat> {
    if s.len() >= 2 && s[0] == '+' && all_digit_chars(s.skip(1)) {
        Some(digits_value(s.skip(1)))
    } else if s.len() >= 1 && all_digit_chars(s) {
        Some(digits_value(s))
    } else {
        None
    }
}

/// What `s.parse::<T>().ok()` gives for an unsigned `T` whose largest value is `max`.
pub open spec fn parse_unsigned(s: Seq<char>, max: nat) -> Option<nat> {
    match unsigned_value(s) {
        Some(v) => if v <= max {
            Some(v)
        } else {
            None
        },
        None => None,
    }
}

/// Parses an unsigned decimal number no larger than `max`, as `str::parse` does.
pub fn parse_unsigned_chars(s: &[char], max: u32) -> (r: Option<u32>)
    ensures
        match parse_unsigned(s@, max as nat) {
            Some(v) => r == Some(v as u32),
            None => r is None,
        },
{
    let n = s.len();
    let mut start: usize = 0;
    if n >= 2 && s[0] == '+' {
        start = 1;
    }
    if start >= n {
        return None;
    }
    let ghost digits = s@.skip(start as int);
    let mut value: u32 = 0;
    let mut i = start;
    let mut overflow = false;
    while i < n
        invariant
            start <= i <= n == s@.len(),
            start <= 1,
            start == 1 ==> n >= 2 && s@[0] == '+',
            start == 0 ==> !(n >= 2 && s@[0] == '+'),
            digits == s@.skip(start as int),
            all_digit_chars(s@.subrange(start as int, i as int)),
            !overflow ==> value as nat == digits_value(s@.subrange(start as int, i as int)),
            overflow ==> digits_value(s@.subrange(start as int, i as int)) > max,
            value <= max,
        decreases n - i,
    {
        let c = s[i];
        if c < '0' || c > '9' {
            proof {
                assert(digits[i - start] == c);
                if start == 1 {
                    assert(!is_digit_char(s@[0]));
                }
            }
            return None;
        }
        proof {
            let prev = s@.subrange(start as int, i as int);
            let next = s@.subrange(start as int, i + 1);
            assert(next.drop_last() =~= prev);
            assert(next.last() == c);
            assert(all_digit_chars(next)) by {
                assert forall|j: int| 0 <= j < next.len() implies is_digit_char(#[trigger] next[j]) by {
                    if j < prev.len() {
                        assert(next[j] == prev[j]);
                    }
                }
            }
        }
        let d = (c as u32) - ('0' as u32);
        if !overflow {
            if d > max || value > (max - d) / 10 {
                overflow = true;
                proof {
                    if d <= max {
                        assert(value * 10 + d > max) by (nonlinear_arith)
                            requires
                                value > (max - d) / 10,
                                d <= max,
                        ;
                    }
                }
            } else {
                proof {
                    assert(value * 10 + d <= max) by (nonlinear_arith)
                        requires
                            value <= (max - d) / 10,
                            d <= max,
                    ;
                }
                value = value * 10 + d;
            }
        } else {
            proof {
                let prev = s@.subrange(start as int, i as int);
                assert(digits_value(prev) * 10 >= digits_value(prev)) by (nonlinear_arith);
            }
        }
        i = i + 1;
    }
    proof {
        assert(s@.subrange(start as int, n as int) =~= digits);
        if start == 0 {
            assert(digits =~= s@);
        }
    }
    if overflow {
        None
    } else {
        Some(value)
    }
}

/// `s` with every leading copy of a non-empty `prefix` removed, as
/// `str::trim_start_matches` does.
pub open spec fn strip_all_prefix(s: Seq<char>, prefix: Seq<char>) -> Seq<char>
    decreases s.len(),
{
    if prefix.len() > 0 && starts_with(s, prefix) {
        strip_all_prefix(s.skip(prefix.len() as int), prefix)
    } else {
        s
    }
}

/// Removes every leading copy of a non-empty `prefix`.
pub fn strip_all_prefix_chars(s: &[char], prefix: &[char]) -> (r: Vec<char>)
    requires
        prefix@.len() > 0,
    ensures
        r@ == strip_all_prefix(s@, prefix@),
{
    let mut rest = sub_chars(s, 0, s.len());
    assert(s@.subrange(0, s@.len() as int) =~= s@);
    while chars_start_with(rest.as_slice(), prefix)
        invariant
            prefix@.len() > 0,
            strip_all_prefix(rest@, prefix@) == strip_all_prefix(s@, prefix@),
        decreases rest@.len(),
    {
        let next = sub_chars(rest.as_slice(), prefix.len(), rest.len());
        assert(next@ =~= rest@.skip(prefix@.len() as int));
        rest = next;
    }
    rest
}

/// Splits `s` at every non-overlapping occurrence of a non-empty `sep`.
pub fn split_chars(s: &[char], sep: &[char]) -> (r: Vec<Vec<char>>)
    requires
        sep@.len() > 0,
    ensures
        r@.len() == split(s@, sep@).len(),
        forall|i: int| 0 <= i < r@.len() ==> #[trigger] r@[i]@ == split(s@, sep@)[i],
{
    let mut pieces: Vec<Vec<char>> = Vec::new();
    let ghost mut done: Seq<Seq<char>> = Seq::empty();
    let mut rest = sub_chars(s, 0, s.len());
    assert(s@.subrange(0, s@.len() as int) =~= s@);
    loop
        invariant
            sep@.len() > 0,
            pieces@.len() == done.len(),
            forall|i: int| 0 <= i < pieces@.len() ==> #[trigger] pieces@[i]@ == done[i],
            done + split(rest@, sep@) == split(s@, sep@),
        decreases rest@.len(),
    {
        match find_chars(rest.as_slice(), sep, 0) {
            None => {
                proof {
                    assert(split(rest@, sep@) == seq![rest@]);
                    done = done.push(rest@);
                }
                pieces.push(rest);
                proof {
                    assert(done + Seq::<Seq<char>>::empty() =~= done);
                    assert(split(s@, sep@) =~= done);
                }
                return pieces;
            },
            Some(i) => {
                let _len = rest.len();
                let head = sub_chars(rest.as_slice(), 0, i);
                let tail = sub_chars(rest.as_slice(), i + sep.len(), rest.len());
                proof {
                    assert(head@ =~= rest@.take(i as int));
                    assert(tail@ =~= rest@.skip(i + sep@.len()));
                    assert(split(rest@, sep@) == seq![head@] + split(tail@, sep@));
                    assert(done + split(rest@, sep@) =~= done.push(head@) + split(tail@, sep@));
                    done = done.push(head@);
                }
                pieces.push(head);
                rest = tail;
            },
        }
    }
}

proof fn lemma_trim_start_len(s: Seq<char>)
    ensures
        trim_start(s).len() <= s.len(),
    decreases s.len(),
{
    if s.len() > 0 && is_whitespace(s[0]) {
        lemma_trim_start_len(s.drop_first());
    }
}

proof fn lemma_trim_end_len(s: Seq<char>)
    ensures
        trim_end(s).len() <= s.len(),
    decreases s.len(),
{
    if s.len() > 0 && is_whitespace(s.last()) {
        lemma_trim_end_len(s.drop_last());
    }
}

/// A trimmed, non-empty text neither starts nor ends with whitespace.
pub proof fn lemma_trimmed_edges(s: Seq<char>)
    requires
        trim(s) == s,
        s.len() > 0,
    ensures
        !is_whitespace(s[0]),
        !is_whitespace(s.last()),
{
    lemma_trim_start_len(s);
    lemma_trim_end_len(trim_start(s));
    if is_whitespace(s[0]) {
        lemma_trim_start_len(s.drop_first());
        assert(trim(s).len() < s.len());
    }
    if is_whitespace(s.last()) {
        if trim_start(s) == s {
            lemma_trim_end_len(s.drop_last());
            assert(trim(s).len() < s.len());
        } else {
            assert(is_whitespace(s[0]));
        }
    }
}

/// A text that neither starts nor ends with whitespace is its own trim.
pub proof fn lemma_trim_fixed(s: Seq<char>)
    requires
        s.len() > 0 ==> !is_whitespace(s[0]) && !is_whitespace(s.last()),
    ensures
        trim(s) == s,
{
}

proof fn lemma_trim_end_keeps_first(s: Seq<char>)
    requires
        s.len() > 0,
        !is_whitespace(s[0]),
    ensures
        trim_end(s).len() > 0,
    decreases s.len(),
{
    if is_whitespace(s.last()) {
        lemma_trim_end_keeps_first(s.drop_last());
    }
}

/// A text that starts with a non-whitespace character does not trim to nothing.
pub proof fn lemma_trim_nonempty(s: Seq<char>)
    requires
        s.len() > 0,
        !is_whitespace(s[0]),
    ensures
        trim(s).len() > 0,
{
    lemma_trim_end_keeps_first(s);
}

/// The ASCII digit for `d < 10`.
pub open spec fn digit_char(d: nat) -> char {
    ((d + 48) as u32) as char
}

/// The decimal form of `n`, as `Display` writes an unsigned integer.
pub open spec fn decimal_text(n: nat) -> Seq<char>
    decreases n,
{
    if n < 10 {
        seq![digit_char(n)]
    } else {
        decimal_text(n / 10).push(digit_char(n % 10))
    }
}

fn push_decimal(out: &mut Vec<char>, n: u64)
    ensures
        final(out)@ == old(out)@ + decimal_text(n as nat),
    decreases n,
{
    if n >= 10 {
        push_decimal(out, n / 10);
    }
    let d = (n % 10) as u8;
    let c = (d + 48) as char;
    out.push(c);
    proof {
        assert(c == digit_char((n % 10) as nat));
    }
}

/// The decimal form of `n`.
pub fn decimal_string(n: u64) -> (r: String)
    ensures
        r@ == decimal_text(n as nat),
{
    let mut digits: Vec<char> = Vec::new();
    push_decimal(&mut digits, n);
    assert(digits@ =~= decimal_text(n as nat));
    string_from_chars(digits.as_slice())
}

/// What `Debug` writes for a string: the text in double quotes, with quotes,
/// backslashes and control characters escaped.
pub uninterp spec fn spec_debug_text(s: Seq<char>) -> Seq<char>;

/// `<str as Debug>::fmt`: the quoted, escaped form of `s`.
#[verifier::external_body]
pub fn debug_text(s: &str) -> (r: String)
    ensures
        r@ == spec_debug_text(s@),
{
    format!("{s:?}")
}

/// What `String::from_utf8_lossy` makes of `bytes`: their UTF-8 decoding, with each
/// invalid sequence replaced by U+FFFD.
pub uninterp spec fn spec_utf8_lossy(bytes: Seq<u8>) -> Seq<char>;

/// `String::from_utf8_lossy`: the text of `bytes`, invalid sequences replaced. Valid
/// UTF-8 is decoded as it stands.
#[verifier::external_body]
pub fn utf8_lossy(bytes: &[u8]) -> (r: String)
    ensures
        r@ == spec_utf8_lossy(bytes@),
        valid_utf8(bytes@) ==> r@ == decode_utf8(bytes@),
{
    String::from_utf8_lossy(bytes).into_owned()
}

} // verus!
