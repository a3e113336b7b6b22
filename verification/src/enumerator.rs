//! Resource enumeration: the seam through which discovery lists instruments.
use crate::address::{opt_text, parsed_as, same_address, ResourceAddress};
use crate::error::Error;
use crate::error::Result;
use crate::text::{chars_contain, chars_of, contains, string_from_chars};
use crate::transport::{no_hints, TransportIdentity};
use vstd::prelude::*;

verus! {

/// Raw resource from an enumerator before classification.
#[derive(Debug, Clone)]
pub struct RawResource {
    pub address: ResourceAddress,
    pub identity_hint: TransportIdentity,
}

/// Two resources hold the same address and hints.
pub open spec fn same_resource(a: RawResource, b: RawResource) -> bool {
    &&& same_address(a.address, b.address)
    &&& opt_text(a.identity_hint.manufacturer) == opt_text(b.identity_hint.manufacturer)
    &&& opt_text(a.identity_hint.model) == opt_text(b.identity_hint.model)
    &&& opt_text(a.identity_hint.serial) == opt_text(b.identity_hint.serial)
    &&& a.identity_hint.interface == b.identity_hint.interface
    &&& a.identity_hint.manf_id == b.identity_hint.manf_id
    &&& a.identity_hint.model_code == b.identity_hint.model_code
}

/// The two lists hold the same resources, in order.
pub open spec fn same_resources(a: Seq<RawResource>, b: Seq<RawResource>) -> bool {
    a.len() == b.len() && forall|i: int| 0 <= i < a.len() ==> same_resource(#[trigger] a[i], b[i])
}

impl RawResource {
    /// A copy of this resource.
    pub fn duplicate(&self) -> (r: Self)
        ensures
            same_resource(r, *self),
    {
        RawResource { address: self.address.duplicate(), identity_hint: self.identity_hint.duplicate() }
    }
}

/// Narrow seam for acquiring resources without coupling to VISA.
pub trait ResourceEnumerator: Send + Sync {
    fn list(&self, pattern: &str) -> Result<Vec<RawResource>>;
}

/// `s` without leading copies of `c`.
pub open spec fn strip_start_char(s: Seq<char>, c: char) -> Seq<char>
    decreases s.len(),
{
    if s.len() > 0 && s[0] == c {
        strip_start_char(s.drop_first(), c)
    } else {
        s
    }
}

/// `s` without trailing copies of `c`.
pub open spec fn strip_end_char(s: Seq<char>, c: char) -> Seq<char>
    decreases s.len(),
{
    if s.len() > 0 && s.last() == c {
        strip_end_char(s.drop_last(), c)
    } else {
        s
    }
}

/// `s` without leading and trailing copies of `c`, as `str::trim_matches` returns it.
pub open spec fn strip_char(s: Seq<char>, c: char) -> Seq<char> {
    strip_end_char(strip_start_char(s, c), c)
}

/// The resources whose address contains `needle`, in order.
pub open spec fn matching(resources: Seq<RawResource>, needle: Seq<char>) -> Seq<RawResource>
    decreases resources.len(),
{
    if resources.len() == 0 {
        Seq::empty()
    } else {
        let rest = matching(resources.drop_last(), needle);
        if contains(resources.last().address.raw@, needle) {
            rest.push(resources.last())
        } else {
            rest
        }
    }
}

fn strip_chars(s: &[char], c: char) -> (r: Vec<char>)
    ensures
        r@ == strip_char(s@, c),
{
    let mut start: usize = 0;
    assert(s@.skip(0) =~= s@);
    while start < s.len() && s[start] == c
        invariant
            start <= s@.len(),
            strip_start_char(s@.skip(start as int), c) == strip_start_char(s@, c),
        decreases s@.len() - start,
    {
        assert(s@.skip(start as int).drop_first() =~= s@.skip(start + 1));
        start = start + 1;
    }
    assert(s@.skip(start as int) =~= s@.subrange(start as int, s@.len() as int));
    let mut end: usize = s.len();
    while end > start && s[end - 1] == c
        invariant
            start <= end <= s@.len(),
            strip_start_char(s@, c) == s@.subrange(start as int, s@.len() as int),
            strip_end_char(s@.subrange(start as int, end as int), c) == strip_char(s@, c),
        decreases end,
    {
        assert(s@.subrange(start as int, end as int).drop_last() =~= s@.subrange(
            start as int,
            end - 1,
        ));
        end = end - 1;
    }
    let mut out: Vec<char> = Vec::new();
    let mut i = start;
    while i < end
        invariant
            start <= i <= end <= s@.len(),
            out@ == s@.subrange(start as int, i as int),
        decreases end - i,
    {
        out.push(s[i]);
        i = i + 1;
        assert(out@ =~= s@.subrange(start as int, i as int));
    }
    out
}

/// Static resource list for unit tests.
#[derive(Debug)]
pub struct StaticEnumerator {
    resources: Vec<RawResource>,
}

impl Default for StaticEnumerator {
    /// No resources.
    fn default() -> (r: Self)
        ensures
            r.resources().len() == 0,
    {
        StaticEnumerator { resources: Vec::new() }
    }
}

impl StaticEnumerator {
    /// The listed resources.
    pub closed spec fn resources(&self) -> Seq<RawResource> {
        self.resources@
    }

    /// An enumerator that lists `resources`.
    pub fn new(resources: Vec<RawResource>) -> (r: Self)
        ensures
            r.resources() == resources@,
    {
        StaticEnumerator { resources }
    }

    /// An enumerator over parsed addresses, without hints; the first address that does
    /// not parse is the error.
    pub fn from_addresses(addresses: Vec<String>) -> (r: Result<Self>)
        ensures
            r matches Ok(e) ==> e.resources().len() == addresses@.len() && forall|i: int|
                0 <= i < addresses@.len() ==> (#[trigger] e.resources()[i]).address.raw@ == crate::text::trim(
                    addresses@[i]@,
                ),
            r is Err ==> exists|i: int|
                0 <= i < addresses@.len() && crate::text::trim(#[trigger] addresses@[i]@).len() == 0,
            r is Ok <==> forall|i: int|
                0 <= i < addresses@.len() ==> crate::text::trim(#[trigger] addresses@[i]@).len() > 0,
            r matches Err(err) ==> err matches Error::InvalidAddress(m) && m@ == "empty address"@,
            r matches Ok(e) ==> forall|i: int|
                0 <= i < addresses@.len() ==> parsed_as((#[trigger] e.resources()[i]).address, addresses@[i]@)
                    && e.resources()[i].identity_hint@ == no_hints(),
    {
        let mut resources: Vec<RawResource> = Vec::new();
        let mut i: usize = 0;
        while i < addresses.len()
            invariant
                i <= addresses@.len(),
                resources@.len() == i,
                forall|k: int|
                    0 <= k < i ==> (#[trigger] resources@[k]).address.raw@ == crate::text::trim(
                        addresses@[k]@,
                    ),
                forall|k: int|
                    0 <= k < i ==> parsed_as((#[trigger] resources@[k]).address, addresses@[k]@)
                        && resources@[k].identity_hint@ == no_hints(),
                forall|k: int| 0 <= k < i ==> crate::text::trim(#[trigger] addresses@[k]@).len() > 0,
            decreases addresses@.len() - i,
        {
            let address = match ResourceAddress::parse(addresses[i].as_str()) {
                Ok(a) => a,
                Err(e) => {
                    return Err(e);
                },
            };
            resources.push(RawResource { address, identity_hint: TransportIdentity::empty() });
            i = i + 1;
        }
        Ok(StaticEnumerator::new(resources))
    }

    fn copy_all(&self) -> (r: Vec<RawResource>)
        ensures
            same_resources(r@, self.resources@),
    {
        let mut out: Vec<RawResource> = Vec::new();
        let mut i: usize = 0;
        while i < self.resources.len()
            invariant
                i <= self.resources@.len(),
                same_resources(out@, self.resources@.take(i as int)),
            decreases self.resources@.len() - i,
        {
            out.push(self.resources[i].duplicate());
            i = i + 1;
        }
        assert(self.resources@.take(self.resources@.len() as int) =~= self.resources@);
        out
    }

    fn copy_matching(&self, needle: &[char]) -> (r: Vec<RawResource>)
        ensures
            same_resources(r@, matching(self.resources@, needle@)),
    {
        let mut out: Vec<RawResource> = Vec::new();
        let mut i: usize = 0;
        while i < self.resources.len()
            invariant
                i <= self.resources@.len(),
                same_resources(out@, matching(self.resources@.take(i as int), needle@)),
            decreases self.resources@.len() - i,
        {
            proof {
                let t = self.resources@.take(i + 1);
                assert(t.drop_last() =~= self.resources@.take(i as int));
                assert(t.last() == self.resources@[i as int]);
            }
            let raw = chars_of(self.resources[i].address.raw.as_str());
            if chars_contain(raw.as_slice(), needle) {
                out.push(self.resources[i].duplicate());
            }
            i = i + 1;
        }
        assert(self.resources@.take(self.resources@.len() as int) =~= self.resources@);
        out
    }
}

impl StaticEnumerator {
    /// Lists every resource for `?*INSTR` or `?*`; otherwise those whose address
    /// contains the pattern with its surrounding `?` removed.
    pub fn list_matching(&self, pattern: &str) -> (r: Result<Vec<RawResource>>)
        ensures
            pattern@ == "?*INSTR"@ || pattern@ == "?*"@ ==> (r matches Ok(v) && same_resources(
                v@,
                self.resources(),
            )),
            !(pattern@ == "?*INSTR"@ || pattern@ == "?*"@) ==> (r matches Ok(v) && same_resources(
                v@,
                matching(self.resources(), strip_char(pattern@, '?')),
            )),
    {
        let p = pattern.to_owned();
        if p == "?*INSTR".to_owned() || p == "?*".to_owned() {
            return Ok(self.copy_all());
        }
        let chars = chars_of(pattern);
        let needle = strip_chars(chars.as_slice(), '?');
        Ok(self.copy_matching(needle.as_slice()))
    }
}

impl ResourceEnumerator for StaticEnumerator {
    fn list(&self, pattern: &str) -> (r: Result<Vec<RawResource>>)
        ensures
            pattern@ == "?*INSTR"@ || pattern@ == "?*"@ ==> (r matches Ok(v) && same_resources(
                v@,
                self.resources(),
            )),
            !(pattern@ == "?*INSTR"@ || pattern@ == "?*"@) ==> (r matches Ok(v) && same_resources(
                v@,
                matching(self.resources(), strip_char(pattern@, '?')),
            )),
    {
        self.list_matching(pattern)
    }
}


/// Whether `needle` occurs in `raw` at some position.
pub open spec fn occurs_in(raw: Seq<char>, needle: Seq<char>) -> bool {
    exists|i: int| 0 <= i && i + needle.len() <= raw.len() && #[trigger] raw.subrange(i, i + needle.len()) == needle
}

/// Listing by a pattern keeps, in their order, exactly the resources whose address
/// holds the needle at some position (the first or any later one).
pub proof fn lemma_matching_keeps_occurrences(resources: Seq<RawResource>, needle: Seq<char>)
    ensures
        matching(resources, needle) == resources.filter(|r: RawResource| occurs_in(r.address.raw@, needle)),
    decreases resources.len(),
{
    reveal(Seq::filter);
    let pred = |r: RawResource| occurs_in(r.address.raw@, needle);
    if resources.len() > 0 {
        lemma_matching_keeps_occurrences(resources.drop_last(), needle);
        let raw = resources.last().address.raw@;
        assert(contains(raw, needle) == occurs_in(raw, needle)) by {
            if contains(raw, needle) {
                let i = choose|i: int| crate::text::occurs_at(raw, needle, i);
                assert(raw.subrange(i, i + needle.len()) == needle);
            }
            if occurs_in(raw, needle) {
                let i = choose|i: int|
                    0 <= i && i + needle.len() <= raw.len() && #[trigger] raw.subrange(i, i + needle.len()) == needle;
                assert(crate::text::occurs_at(raw, needle, i));
            }
        }
        assert(resources.filter(pred) == {
            let subseq = resources.drop_last().filter(pred);
            if pred(resources.last()) {
                subseq.push(resources.last())
            } else {
                subseq
            }
        });
    }
}

} // verus!
