use crate::address::opt_text;
use crate::text::{chars_of, is_whitespace, lemma_trim_fixed, lemma_trimmed_edges, string_from_chars, sub_chars, trim, trim_bounds, trim_str};
use vstd::prelude::*;

verus! {

/// Stable device identity for replacement and reconnection workflows.
#[derive(Debug, Clone, PartialEq, Eq, Hash)]
pub struct DeviceId(pub String);

/// The id text: `manufacturer|model|serial` when all three are known and the serial is
/// not empty, else the VISA address.
pub open spec fn device_id_text(identity: DeviceIdentity, address: Seq<char>) -> Seq<char> {
    match (identity.manufacturer, identity.model, identity.serial) {
        (Some(m), Some(model), Some(serial)) => if serial@.len() > 0 {
            m@ + "|"@ + model@ + "|"@ + serial@
        } else {
            address
        },
        _ => address,
    }
}

impl DeviceId {
    /// Builds an ID from manufacturer, model, and serial, falling back to the VISA address.
    pub fn from_identity(identity: &DeviceIdentity, address: &str) -> (r: Self)
        ensures
            r.0@ == device_id_text(*identity, address@),
    {
        if let (Some(m), Some(model), Some(serial)) = (
            &identity.manufacturer,
            &identity.model,
            &identity.serial,
        ) {
            if !serial.as_str().is_empty() {
                let mut text = m.clone();
                text.append("|");
                text.append(model.as_str());
                text.append("|");
                text.append(serial.as_str());
                return DeviceId(text);
            }
        }
        DeviceId(address.to_owned())
    }

    /// The id as text.
    pub fn as_str(&self) -> (r: &str)
        ensures
            r@ == self.0@,
    {
        self.0.as_str()
    }
}

/// Parsed `*IDN?` response.
#[derive(Debug, Clone, PartialEq, Eq)]
pub struct Idn {
    pub manufacturer: String,
    pub model: String,
    pub serial: String,
    pub firmware: String,
}

impl Default for Idn {
    fn default() -> (r: Self)
        ensures
            r.manufacturer@.len() == 0,
            r.model@.len() == 0,
            r.serial@.len() == 0,
            r.firmware@.len() == 0,
    {
        Idn {
            manufacturer: String::new(),
            model: String::new(),
            serial: String::new(),
            firmware: String::new(),
        }
    }
}

/// The first position of `c` in `s` at or after `i`.
pub open spec fn find_char_from(s: Seq<char>, c: char, i: int) -> Option<int>
    decreases s.len() - i,
{
    if i < 0 || i >= s.len() {
        None
    } else if s[i] == c {
        Some(i)
    } else {
        find_char_from(s, c, i + 1)
    }
}

/// The at most `n` pieces of `s` between the first `n - 1` occurrences of `c`, as
/// `str::splitn` yields them.
pub open spec fn splitn(s: Seq<char>, n: nat, c: char) -> Seq<Seq<char>>
    decreases n,
{
    if n <= 1 {
        seq![s]
    } else {
        match find_char_from(s, c, 0) {
            Some(i) => if 0 <= i < s.len() {
                seq![s.take(i)] + splitn(s.skip(i + 1), (n - 1) as nat, c)
            } else {
                seq![s]
            },
            None => seq![s],
        }
    }
}

/// Field `k` of an `*IDN?` response: the trimmed `k`-th comma-separated piece (the last
/// field keeps any further commas), or empty when missing.
pub open spec fn idn_field(response: Seq<char>, k: int) -> Seq<char> {
    let pieces = splitn(trim(response), 4, ',');
    if 0 <= k < pieces.len() {
        trim(pieces[k])
    } else {
        Seq::empty()
    }
}

/// `manufacturer,model,serial,firmware`
pub open spec fn idn_text(idn: Idn) -> Seq<char> {
    idn.manufacturer@ + ","@ + idn.model@ + ","@ + idn.serial@ + ","@ + idn.firmware@
}

proof fn lemma_find_char_bounds(s: Seq<char>, c: char, i: int)
    ensures
        find_char_from(s, c, i) matches Some(p) ==> i <= p < s.len() && s[p] == c && 0 <= p,
    decreases s.len() - i,
{
    if 0 <= i < s.len() && s[i] != c {
        lemma_find_char_bounds(s, c, i + 1);
    }
}

fn position_of_char(s: &[char], c: char) -> (r: Option<usize>)
    ensures
        match find_char_from(s@, c, 0) {
            Some(p) => r == Some(p as usize),
            None => r is None,
        },
        r matches Some(p) ==> p < s@.len(),
        find_char_from(s@, c, 0) matches Some(p) ==> 0 <= p < s@.len(),
{
    proof {
        lemma_find_char_bounds(s@, c, 0);
    }
    let mut i: usize = 0;
    while i < s.len()
        invariant
            i <= s@.len(),
            find_char_from(s@, c, 0) == find_char_from(s@, c, i as int),
        decreases s@.len() - i,
    {
        if s[i] == c {
            return Some(i);
        }
        i = i + 1;
    }
    None
}

/// Splits `s` into at most `n` pieces at the first `n - 1` occurrences of `c`.
fn splitn_chars(s: &[char], n: usize, c: char) -> (r: Vec<Vec<char>>)
    requires
        n >= 1,
    ensures
        r@.len() == splitn(s@, n as nat, c).len(),
        forall|i: int| 0 <= i < r@.len() ==> #[trigger] r@[i]@ == splitn(s@, n as nat, c)[i],
{
    let mut pieces: Vec<Vec<char>> = Vec::new();
    let ghost mut done: Seq<Seq<char>> = Seq::empty();
    let mut rest = sub_chars(s, 0, s.len());
    assert(s@.subrange(0, s@.len() as int) =~= s@);
    let mut left = n;
    loop
        invariant
            left >= 1,
            pieces@.len() == done.len(),
            forall|i: int| 0 <= i < pieces@.len() ==> #[trigger] pieces@[i]@ == done[i],
            done + splitn(rest@, left as nat, c) == splitn(s@, n as nat, c),
        decreases left,
    {
        let _len = rest.len();
        let found = if left <= 1 {
            None
        } else {
            position_of_char(rest.as_slice(), c)
        };
        assert(left <= 1 ==> found is None);
        match found {
            None => {
                proof {
                    assert(splitn(rest@, left as nat, c) == seq![rest@]);
                    done = done.push(rest@);
                }
                pieces.push(rest);
                proof {
                    assert(splitn(s@, n as nat, c) =~= done);
                }
                return pieces;
            },
            Some(i) => {
                let head = sub_chars(rest.as_slice(), 0, i);
                let tail = sub_chars(rest.as_slice(), i + 1, rest.len());
                proof {
                    assert(head@ =~= rest@.take(i as int));
                    assert(tail@ =~= rest@.skip(i + 1));
                    assert(splitn(rest@, left as nat, c) == seq![head@] + splitn(
                        tail@,
                        (left - 1) as nat,
                        c,
                    ));
                    assert(done + splitn(rest@, left as nat, c) =~= done.push(head@) + splitn(
                        tail@,
                        (left - 1) as nat,
                        c,
                    ));
                    done = done.push(head@);
                }
                pieces.push(head);
                rest = tail;
                left = left - 1;
            },
        }
    }
}

fn trimmed_piece(pieces: &Vec<Vec<char>>, k: usize) -> (r: String)
    ensures
        r@ == (if k < pieces@.len() {
            trim(pieces@[k as int]@)
        } else {
            Seq::empty()
        }),
{
    if k < pieces.len() {
        let (a, b) = trim_bounds(pieces[k].as_slice());
        let t = sub_chars(pieces[k].as_slice(), a, b);
        string_from_chars(t.as_slice())
    } else {
        String::new()
    }
}

impl Idn {
    /// Parses a comma-separated `*IDN?` response.
    pub fn parse(response: &str) -> (r: Self)
        ensures
            r.manufacturer@ == idn_field(response@, 0),
            r.model@ == idn_field(response@, 1),
            r.serial@ == idn_field(response@, 2),
            r.firmware@ == idn_field(response@, 3),
    {
        let trimmed = trim_str(response);
        let chars = chars_of(trimmed.as_str());
        let pieces = splitn_chars(chars.as_slice(), 4, ',');
        Idn {
            manufacturer: trimmed_piece(&pieces, 0),
            model: trimmed_piece(&pieces, 1),
            serial: trimmed_piece(&pieces, 2),
            firmware: trimmed_piece(&pieces, 3),
        }
    }

    /// The response text `manufacturer,model,serial,firmware`.
    pub fn format_response(&self) -> (r: String)
        ensures
            r@ == idn_text(*self),
    {
        let mut text = self.manufacturer.clone();
        text.append(",");
        text.append(self.model.as_str());
        text.append(",");
        text.append(self.serial.as_str());
        text.append(",");
        text.append(self.firmware.as_str());
        text
    }
}

/// Merged device identity from all classification layers.
#[derive(Debug, Clone, PartialEq, Eq)]
pub struct DeviceIdentity {
    pub manufacturer: Option<String>,
    pub model: Option<String>,
    pub serial: Option<String>,
    pub firmware: Option<String>,
    pub options: Option<String>,
}

impl Default for DeviceIdentity {
    fn default() -> (r: Self)
        ensures
            r.manufacturer is None,
            r.model is None,
            r.serial is None,
            r.firmware is None,
            r.options is None,
    {
        DeviceIdentity::unknown()
    }
}

/// `a` where it is known, else `b`.
pub open spec fn first_known(a: Option<String>, b: Option<String>) -> Option<Seq<char>> {
    if a is Some {
        opt_text(a)
    } else {
        opt_text(b)
    }
}

fn clone_opt(o: &Option<String>) -> (r: Option<String>)
    ensures
        opt_text(r) == opt_text(*o),
{
    match o {
        Some(s) => Some(s.clone()),
        None => None,
    }
}

impl DeviceIdentity {
    /// Nothing known.
    pub fn unknown() -> (r: Self)
        ensures
            r.manufacturer is None,
            r.model is None,
            r.serial is None,
            r.firmware is None,
            r.options is None,
    {
        DeviceIdentity { manufacturer: None, model: None, serial: None, firmware: None, options: None }
    }

    /// The identity that an `*IDN?` reply states: all four fields, no options.
    pub fn from_idn(idn: &Idn) -> (r: Self)
        ensures
            opt_text(r.manufacturer) == Some(idn.manufacturer@),
            opt_text(r.model) == Some(idn.model@),
            opt_text(r.serial) == Some(idn.serial@),
            opt_text(r.firmware) == Some(idn.firmware@),
            r.options is None,
    {
        DeviceIdentity {
            manufacturer: Some(idn.manufacturer.clone()),
            model: Some(idn.model.clone()),
            serial: Some(idn.serial.clone()),
            firmware: Some(idn.firmware.clone()),
            options: None,
        }
    }

    /// Fills each unknown field from `other`; known fields are kept.
    pub fn merge(&mut self, other: &Self)
        ensures
            opt_text(final(self).manufacturer) == first_known(old(self).manufacturer, other.manufacturer),
            opt_text(final(self).model) == first_known(old(self).model, other.model),
            opt_text(final(self).serial) == first_known(old(self).serial, other.serial),
            opt_text(final(self).firmware) == first_known(old(self).firmware, other.firmware),
            opt_text(final(self).options) == first_known(old(self).options, other.options),
    {
        if self.manufacturer.is_none() {
            self.manufacturer = clone_opt(&other.manufacturer);
        }
        if self.model.is_none() {
            self.model = clone_opt(&other.model);
        }
        if self.serial.is_none() {
            self.serial = clone_opt(&other.serial);
        }
        if self.firmware.is_none() {
            self.firmware = clone_opt(&other.firmware);
        }
        if self.options.is_none() {
            self.options = clone_opt(&other.options);
        }
    }
}

proof fn lemma_find_char_skips(s: Seq<char>, c: char, i: int, p: int)
    requires
        0 <= i <= p < s.len(),
        s[p] == c,
        forall|j: int| i <= j < p ==> s[j] != c,
    ensures
        find_char_from(s, c, i) == Some(p),
    decreases p - i,
{
    if i < p {
        lemma_find_char_skips(s, c, i + 1, p);
    }
}

pub open spec fn has_no_comma(s: Seq<char>) -> bool {
    forall|j: int| 0 <= j < s.len() ==> s[j] != ','
}

proof fn lemma_splitn_field(head: Seq<char>, rest: Seq<char>, n: nat)
    requires
        has_no_comma(head),
        n >= 2,
    ensures
        splitn(head + ","@ + rest, n, ',') == seq![head] + splitn(rest, (n - 1) as nat, ','),
{
    reveal_strlit(",");
    let s = head + ","@ + rest;
    assert(s[head.len() as int] == ',');
    assert forall|j: int| 0 <= j < head.len() implies s[j] != ',' by {
        assert(s[j] == head[j]);
    }
    lemma_find_char_skips(s, ',', 0, head.len() as int);
    assert(s.take(head.len() as int) =~= head);
    assert(s.skip(head.len() + 1int) =~= rest);
}

/// Reading back a formatted `*IDN?` reply gives the identity that was formatted,
/// provided the first three fields hold no comma and no field has surrounding
/// whitespace.
pub proof fn lemma_idn_round_trip(idn: Idn)
    requires
        has_no_comma(idn.manufacturer@),
        has_no_comma(idn.model@),
        has_no_comma(idn.serial@),
        trim(idn.manufacturer@) == idn.manufacturer@,
        trim(idn.model@) == idn.model@,
        trim(idn.serial@) == idn.serial@,
        trim(idn.firmware@) == idn.firmware@,
    ensures
        idn_field(idn_text(idn), 0) == idn.manufacturer@,
        idn_field(idn_text(idn), 1) == idn.model@,
        idn_field(idn_text(idn), 2) == idn.serial@,
        idn_field(idn_text(idn), 3) == idn.firmware@,
{
    reveal_strlit(",");
    let m = idn.manufacturer@;
    let mo = idn.model@;
    let s = idn.serial@;
    let f = idn.firmware@;
    let t = idn_text(idn);
    let comma = ","@;
    assert(comma.len() == 1 && comma[0] == ',');
    assert(!is_whitespace(','));
    if m.len() > 0 {
        lemma_trimmed_edges(m);
        assert(t[0] == m[0]);
    } else {
        assert(t[0] == ',');
    }
    if f.len() > 0 {
        lemma_trimmed_edges(f);
        assert(t.last() == f.last());
    } else {
        assert(t.last() == ',');
    }
    lemma_trim_fixed(t);
    let r1 = mo + comma + s + comma + f;
    let r2 = s + comma + f;
    assert(t =~= m + comma + r1);
    assert(r1 =~= mo + comma + r2);
    lemma_splitn_field(m, r1, 4);
    lemma_splitn_field(mo, r2, 3);
    lemma_splitn_field(s, f, 2);
    let pieces = splitn(t, 4, ',');
    assert(splitn(f, 1, ',') == seq![f]);
    assert(pieces =~= seq![m, mo, s, f]);
}

} // verus!
