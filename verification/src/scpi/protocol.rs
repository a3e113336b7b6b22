use crate::error::Error;
use crate::text::{
    chars_end_with, chars_of, ends_with, split, split_chars, string_from_chars, trim, trim_str,
};
use vstd::prelude::*;

verus! {

/// Cached instrument capabilities discovered at runtime.
#[derive(Debug, Clone, Copy)]
pub struct SessionCapabilities {
    pub syst_err: Option<bool>,
    pub opc: Option<bool>,
}

impl SessionCapabilities {
    /// Nothing probed yet.
    pub fn unknown() -> (r: Self)
        ensures
            r.syst_err is None,
            r.opc is None,
    {
        SessionCapabilities { syst_err: None, opc: None }
    }
}

/// The bytes sent for `command`: the command with the terminator appended when missing.
pub open spec fn normalized_command(command: Seq<char>, terminator: Seq<char>) -> Seq<char> {
    if ends_with(command, terminator) {
        command
    } else {
        command + terminator
    }
}

/// Appends the terminator when missing from a command string.
pub fn normalize_command(command: &str, terminator: &str) -> (r: String)
    ensures
        r@ == normalized_command(command@, terminator@),
{
    let c = chars_of(command);
    let t = chars_of(terminator);
    let mut payload = command.to_owned();
    if !chars_end_with(c.as_slice(), t.as_slice()) {
        payload.append(terminator);
    }
    payload
}

/// A normalized command already ends with the terminator, so normalizing it again
/// changes nothing.
pub proof fn lemma_normalize_idempotent(command: Seq<char>, terminator: Seq<char>)
    ensures
        ends_with(normalized_command(command, terminator), terminator),
        normalized_command(normalized_command(command, terminator), terminator)
            == normalized_command(command, terminator),
{
    let n = normalized_command(command, terminator);
    if !ends_with(command, terminator) {
        assert(n.skip(n.len() - terminator.len()) =~= terminator);
    }
}

/// The number of write attempts for a command: non-idempotent commands are written
/// once; idempotent ones are retried `retries` times (saturating at `u32::MAX`).
pub open spec fn write_attempts(idempotent: bool, retries: u32) -> u32 {
    if !idempotent {
        1
    } else if retries == u32::MAX {
        u32::MAX
    } else {
        (retries + 1) as u32
    }
}

/// Returns the maximum write attempts for a command.
pub fn max_write_attempts(idempotent: bool, retries: u32) -> (r: u32)
    ensures
        r == write_attempts(idempotent, retries),
        r >= 1,
{
    if idempotent {
        retries.saturating_add(1)
    } else {
        1
    }
}

/// The reply that `*OPC?` gives when the instrument completed its operations.
pub open spec fn opc_supported_reply(response: Seq<char>) -> bool {
    trim(response) == "1"@ || trim(response) == "+1"@
}

/// Returns true when `*OPC?` produced a real operation-complete reply.
pub fn is_opc_supported_reply(response: &str) -> (r: bool)
    ensures
        r == opc_supported_reply(response@),
{
    proof {
        reveal_strlit("1");
        reveal_strlit("+1");
    }
    let t = chars_of(trim_str(response).as_str());
    let one = t.len() == 1 && t[0] == '1';
    let plus_one = t.len() == 2 && t[0] == '+' && t[1] == '1';
    proof {
        if one {
            assert(t@ =~= "1"@);
        }
        if plus_one {
            assert(t@ =~= "+1"@);
        }
        if t@ == "1"@ {
            assert(t@[0] == '1');
        }
        if t@ == "+1"@ {
            assert(t@[0] == '+' && t@[1] == '1');
        }
    }
    one || plus_one
}

pub open spec fn is_ascii_digit_char(c: char) -> bool {
    '0' <= c <= '9'
}

/// The bytes that `u8::is_ascii_whitespace` accepts: space, tab, line feed, form feed
/// and carriage return.
pub open spec fn is_ascii_whitespace_char(c: char) -> bool {
    c == ' ' || c == '\t' || c == '\n' || c == '\x0C' || c == '\r'
}

/// The first index at or after `i` whose character is not an ASCII digit.
pub open spec fn skip_digits(s: Seq<char>, i: int) -> int
    decreases s.len() - i,
{
    if 0 <= i < s.len() && is_ascii_digit_char(s[i]) {
        skip_digits(s, i + 1)
    } else {
        i
    }
}

/// The first index at or after `i` whose character is not ASCII whitespace.
pub open spec fn skip_ascii_whitespace(s: Seq<char>, i: int) -> int
    decreases s.len() - i,
{
    if 0 <= i < s.len() && is_ascii_whitespace_char(s[i]) {
        skip_ascii_whitespace(s, i + 1)
    } else {
        i
    }
}

/// SCPI error-queue form: an optional sign, at least one digit, optional ASCII
/// whitespace, then a comma.
pub open spec fn error_queue_form(s: Seq<char>) -> bool {
    let start = if s.len() > 0 && (s[0] == '+' || s[0] == '-') {
        1int
    } else {
        0int
    };
    let digits_end = skip_digits(s, start);
    let comma = skip_ascii_whitespace(s, digits_end);
    digits_end > start && comma < s.len() && s[comma] == ','
}

/// A `SYST:ERR?` reply in SCPI error-queue form (after trimming).
pub open spec fn syst_err_supported_reply(response: Seq<char>) -> bool {
    error_queue_form(trim(response))
}

/// Returns true when `SYST:ERR?` produced SCPI error-queue form `code,message`.
pub fn is_syst_err_supported_reply(response: &str) -> (r: bool)
    ensures
        r == syst_err_supported_reply(response@),
{
    let s = chars_of(trim_str(response).as_str());
    let n = s.len();
    let mut i: usize = 0;
    if i < n && (s[i] == '+' || s[i] == '-') {
        i = i + 1;
    }
    let digits_start = i;
    while i < n && '0' <= s[i] && s[i] <= '9'
        invariant
            digits_start <= i <= n == s@.len(),
            skip_digits(s@, digits_start as int) == skip_digits(s@, i as int),
        decreases n - i,
    {
        i = i + 1;
    }
    if i == digits_start {
        return false;
    }
    let digits_end = i;
    while i < n && (s[i] == ' ' || s[i] == '\t' || s[i] == '\n' || s[i] == '\x0C' || s[i] == '\r')
        invariant
            digits_end <= i <= n == s@.len(),
            skip_ascii_whitespace(s@, digits_end as int) == skip_ascii_whitespace(s@, i as int),
        decreases n - i,
    {
        i = i + 1;
    }
    i < n && s[i] == ','
}

/// The trimmed, non-empty pieces of `pieces`, in order.
pub open spec fn nonempty_trimmed(pieces: Seq<Seq<char>>) -> Seq<Seq<char>>
    decreases pieces.len(),
{
    if pieces.len() == 0 {
        Seq::empty()
    } else {
        let rest = nonempty_trimmed(pieces.drop_last());
        if trim(pieces.last()).len() == 0 {
            rest
        } else {
            rest.push(trim(pieces.last()))
        }
    }
}

/// The fields of a comma-separated numeric response: each piece between commas,
/// trimmed, empty pieces skipped.
pub open spec fn csv_fields(response: Seq<char>) -> Seq<Seq<char>> {
    nonempty_trimmed(split(response, ","@))
}

/// Splits a comma-separated numeric response (e.g. waveform ASCII data) into its
/// trimmed, non-empty fields.
pub fn numeric_fields(response: &str) -> (r: Vec<String>)
    ensures
        r@.map_values(|f: String| f@) == csv_fields(response@),
{
    proof {
        reveal_strlit(",");
    }
    let chars = chars_of(response);
    let comma = chars_of(",");
    let pieces = split_chars(chars.as_slice(), comma.as_slice());
    let ghost all = split(response@, ","@);
    let mut fields: Vec<String> = Vec::new();
    let mut i: usize = 0;
    while i < pieces.len()
        invariant
            i <= pieces@.len(),
            pieces@.len() == all.len(),
            forall|k: int| 0 <= k < pieces@.len() ==> #[trigger] pieces@[k]@ == all[k],
            fields@.map_values(|f: String| f@) == nonempty_trimmed(all.take(i as int)),
        decreases pieces@.len() - i,
    {
        let text = string_from_chars(pieces[i].as_slice());
        let t = trim_str(text.as_str());
        proof {
            assert(all.take(i + 1).drop_last() =~= all.take(i as int));
            assert(all.take(i + 1).last() == all[i as int]);
        }
        if !t.as_str().is_empty() {
            let ghost before = fields@;
            fields.push(t);
            proof {
                assert(fields@.map_values(|f: String| f@) =~= before.map_values(|f: String| f@).push(
                    trim(all[i as int]),
                ));
            }
        }
        i = i + 1;
    }
    proof {
        assert(all.take(all.len() as int) =~= all);
    }
    fields
}

/// The error for a response field that is not a number.
pub fn not_a_number(text: &str) -> (r: Error)
    ensures
        r matches Error::Parse(m) && m@ == "expected number, got '"@ + text@ + "'"@,
{
    let mut m = "expected number, got '".to_owned();
    m.append(text);
    m.append("'");
    Error::Parse(m)
}

} // verus!
