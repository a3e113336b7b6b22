use crate::error::{Error, Result};
use crate::text::{
    all_digit_chars, ascii_upper, digits_value, find_chars_from, is_ascii_text, is_digit_char,
    occurs_at, unsigned_value,
    chars_of, chars_start_with, parse_unsigned, parse_unsigned_chars, spec_to_uppercase, split,
    split_chars, starts_with, string_from_chars, strip_all_prefix, strip_all_prefix_chars,
    sub_chars, to_uppercase, trim, trim_bounds, trim_str,
};
use std::collections::hash_map::DefaultHasher;
use std::hash::Hasher;
use vstd::prelude::*;
use vstd::std_specs::hash::DefaultHasherAdditionalSpecFns;
use vstd::string::StringSliceAdditionalSpecFns;

verus! {

/// VISA interface kind.
#[derive(Debug, Clone, Copy, PartialEq, Eq, Structural, Hash)]
#[non_exhaustive]
pub enum InterfaceKind {
    Usb,
    Gpib,
    Tcpip,
    Serial,
    Vxi,
    Pxi,
    Unknown,
}

impl Default for InterfaceKind {
    fn default() -> (r: Self)
        ensures
            r == InterfaceKind::Unknown,
    {
        InterfaceKind::Unknown
    }
}

/// Parsed components of a VISA resource string.
#[derive(Debug, Clone, PartialEq, Eq)]
pub struct AddressParts {
    pub board: Option<u32>,
    pub primary_address: Option<u32>,
    pub secondary_address: Option<u32>,
    pub vid: Option<String>,
    pub pid: Option<String>,
    pub serial: Option<String>,
    pub host: Option<String>,
    pub port: Option<u16>,
    pub lane: Option<String>,
}

/// The abstract content of an [`AddressParts`].
pub struct AddressPartsModel {
    pub board: Option<u32>,
    pub primary_address: Option<u32>,
    pub secondary_address: Option<u32>,
    pub vid: Option<Seq<char>>,
    pub pid: Option<Seq<char>>,
    pub serial: Option<Seq<char>>,
    pub host: Option<Seq<char>>,
    pub port: Option<u16>,
    pub lane: Option<Seq<char>>,
}

pub open spec fn opt_text(o: Option<String>) -> Option<Seq<char>> {
    match o {
        Some(s) => Some(s@),
        None => None,
    }
}

impl View for AddressParts {
    type V = AddressPartsModel;

    open spec fn view(&self) -> AddressPartsModel {
        AddressPartsModel {
            board: self.board,
            primary_address: self.primary_address,
            secondary_address: self.secondary_address,
            vid: opt_text(self.vid),
            pid: opt_text(self.pid),
            serial: opt_text(self.serial),
            host: opt_text(self.host),
            port: self.port,
            lane: opt_text(self.lane),
        }
    }
}

pub open spec fn empty_parts() -> AddressPartsModel {
    AddressPartsModel {
        board: None,
        primary_address: None,
        secondary_address: None,
        vid: None,
        pid: None,
        serial: None,
        host: None,
        port: None,
        lane: None,
    }
}

impl AddressParts {
    /// No component known.
    pub fn empty() -> (r: Self)
        ensures
            r@ == empty_parts(),
    {
        AddressParts {
            board: None,
            primary_address: None,
            secondary_address: None,
            vid: None,
            pid: None,
            serial: None,
            host: None,
            port: None,
            lane: None,
        }
    }
}

impl AddressParts {
    /// A copy of these components.
    pub fn duplicate(&self) -> (r: Self)
        ensures
            r@ == self@,
    {
        AddressParts {
            board: self.board,
            primary_address: self.primary_address,
            secondary_address: self.secondary_address,
            vid: copy_text(&self.vid),
            pid: copy_text(&self.pid),
            serial: copy_text(&self.serial),
            host: copy_text(&self.host),
            port: self.port,
            lane: copy_text(&self.lane),
        }
    }
}

fn copy_text(o: &Option<String>) -> (r: Option<String>)
    ensures
        opt_text(r) == opt_text(*o),
{
    match o {
        Some(s) => Some(s.clone()),
        None => None,
    }
}

impl Default for AddressParts {
    fn default() -> (r: Self)
        ensures
            r@ == empty_parts(),
    {
        AddressParts::empty()
    }
}

/// Typed VISA resource address with canonical dedup key.
#[derive(Debug, Clone, PartialEq, Eq)]
pub struct ResourceAddress {
    pub interface: InterfaceKind,
    pub raw: String,
    pub components: AddressParts,
    pub dedup_key: u64,
}

/// The interface that a resource string names, read off its upper-case form.
pub open spec fn interface_of(upper: Seq<char>) -> InterfaceKind {
    if starts_with(upper, "USB"@) {
        InterfaceKind::Usb
    } else if starts_with(upper, "GPIB"@) {
        InterfaceKind::Gpib
    } else if starts_with(upper, "TCPIP"@) || starts_with(upper, "TCP"@) {
        InterfaceKind::Tcpip
    } else if starts_with(upper, "ASRL"@) {
        InterfaceKind::Serial
    } else if starts_with(upper, "VXI"@) {
        InterfaceKind::Vxi
    } else if starts_with(upper, "PXI"@) {
        InterfaceKind::Pxi
    } else {
        InterfaceKind::Unknown
    }
}

pub open spec fn part(parts: Seq<Seq<char>>, i: int) -> Option<Seq<char>> {
    if 0 <= i < parts.len() {
        Some(parts[i])
    } else {
        None
    }
}

/// A USB vendor or product ID without `0x`/`0X` prefixes, upper-cased.
pub open spec fn normalized_hex_id(s: Seq<char>) -> Seq<char> {
    spec_to_uppercase(strip_all_prefix(strip_all_prefix(trim(s), "0x"@), "0X"@))
}

pub open spec fn opt_hex_id(o: Option<Seq<char>>) -> Option<Seq<char>> {
    match o {
        Some(s) => Some(normalized_hex_id(s)),
        None => None,
    }
}

pub open spec fn opt_u32(o: Option<Seq<char>>) -> Option<u32> {
    match o {
        Some(s) => match parse_unsigned(s, u32::MAX as nat) {
            Some(v) => Some(v as u32),
            None => None,
        },
        None => None,
    }
}

pub open spec fn opt_u16(o: Option<Seq<char>>) -> Option<u16> {
    match o {
        Some(s) => match parse_unsigned(s, u16::MAX as nat) {
            Some(v) => Some(v as u16),
            None => None,
        },
        None => None,
    }
}

/// The number after `prefix` in `s`, when `s` starts with it (case-sensitive).
pub open spec fn number_after(s: Seq<char>, prefix: Seq<char>) -> Option<u32> {
    if starts_with(s, prefix) {
        opt_u32(Some(s.skip(prefix.len() as int)))
    } else {
        None
    }
}

/// `USB<board>::<vid>::<pid>::<serial>::INSTR`
pub open spec fn usb_parts(raw: Seq<char>) -> AddressPartsModel {
    let parts = split(raw, "::"@);
    AddressPartsModel {
        vid: opt_hex_id(part(parts, 1)),
        pid: opt_hex_id(part(parts, 2)),
        serial: part(parts, 3),
        ..empty_parts()
    }
}

/// `GPIB<board>::<primary>::<secondary>::INSTR`
pub open spec fn gpib_parts(raw: Seq<char>) -> AddressPartsModel {
    let parts = split(raw, "::"@);
    AddressPartsModel {
        board: number_after(parts[0], "GPIB"@),
        primary_address: opt_u32(part(parts, 1)),
        secondary_address: opt_u32(part(parts, 2)),
        ..empty_parts()
    }
}

/// `TCPIP<board>::<host>::<name>::<port>...`
pub open spec fn tcpip_parts(raw: Seq<char>) -> AddressPartsModel {
    let parts = split(raw, "::"@);
    AddressPartsModel { host: part(parts, 1), port: opt_u16(part(parts, 3)), ..empty_parts() }
}

/// `ASRL<board>::INSTR`
pub open spec fn serial_parts(raw: Seq<char>) -> AddressPartsModel {
    let parts = split(raw, "::"@);
    AddressPartsModel { board: number_after(parts[0], "ASRL"@), ..empty_parts() }
}

/// The components that `parse` reads from a trimmed resource string.
pub open spec fn parts_of(kind: InterfaceKind, raw: Seq<char>) -> AddressPartsModel {
    match kind {
        InterfaceKind::Usb => usb_parts(raw),
        InterfaceKind::Gpib => gpib_parts(raw),
        InterfaceKind::Tcpip => tcpip_parts(raw),
        InterfaceKind::Serial => serial_parts(raw),
        _ => empty_parts(),
    }
}

/// The number that the derived `Hash` writes for an interface kind.
pub open spec fn interface_code(kind: InterfaceKind) -> u8 {
    match kind {
        InterfaceKind::Usb => 0,
        InterfaceKind::Gpib => 1,
        InterfaceKind::Tcpip => 2,
        InterfaceKind::Serial => 3,
        InterfaceKind::Vxi => 4,
        InterfaceKind::Pxi => 5,
        InterfaceKind::Unknown => 6,
    }
}

/// The interface's number as eight little-endian bytes: what the derived `Hash`
/// writes on a 64-bit little-endian machine. Written out here so that a key is the
/// same on every machine.
pub open spec fn interface_code_bytes(kind: InterfaceKind) -> Seq<u8> {
    seq![interface_code(kind), 0u8, 0u8, 0u8, 0u8, 0u8, 0u8, 0u8]
}

/// The dedup key: a `DefaultHasher` digest of the interface and the upper-cased
/// resource string, written as `Hash` writes them (`str` hashing appends `0xff`).
pub open spec fn dedup_digest(kind: InterfaceKind, upper: Seq<char>) -> u64 {
    DefaultHasher::spec_finish(
        seq![interface_code_bytes(kind), vstd::utf8::encode_utf8(upper), seq![0xffu8]],
    )
}

fn interface_hash_bytes(kind: InterfaceKind) -> (r: Vec<u8>)
    ensures
        r@ == interface_code_bytes(kind),
{
    let code: u8 = match kind {
        InterfaceKind::Usb => 0,
        InterfaceKind::Gpib => 1,
        InterfaceKind::Tcpip => 2,
        InterfaceKind::Serial => 3,
        InterfaceKind::Vxi => 4,
        InterfaceKind::Pxi => 5,
        InterfaceKind::Unknown => 6,
    };
    let r = vec![code, 0u8, 0u8, 0u8, 0u8, 0u8, 0u8, 0u8];
    assert(r@ =~= interface_code_bytes(kind));
    r
}

fn compute_dedup_key(kind: InterfaceKind, upper: &str) -> (r: u64)
    ensures
        r == dedup_digest(kind, upper@),
{
    let mut hasher = DefaultHasher::new();
    let code = interface_hash_bytes(kind);
    hasher.write(code.as_slice());
    hasher.write(upper.as_bytes());
    let end: [u8; 1] = [0xff];
    hasher.write(end.as_slice());
    proof {
        assert(end@ =~= seq![0xffu8]);
        assert(hasher@ =~= seq![
            interface_code_bytes(kind),
            vstd::utf8::encode_utf8(upper@),
            seq![0xffu8],
        ]);
    }
    hasher.finish()
}

/// The dedup key that `parse` gives to a resource string.
pub open spec fn address_key(raw: Seq<char>) -> u64 {
    let upper = spec_to_uppercase(trim(raw));
    dedup_digest(interface_of(upper), upper)
}

/// `a` is what `parse` gives for `raw`: the trimmed text, the interface read off its
/// upper-cased form, its components and its dedup key.
pub open spec fn parsed_as(a: ResourceAddress, raw: Seq<char>) -> bool {
    let t = trim(raw);
    let kind = interface_of(spec_to_uppercase(t));
    &&& a.raw@ == t
    &&& a.interface == kind
    &&& a.components@ == parts_of(kind, t)
    &&& a.dedup_key == address_key(raw)
}

/// Two addresses hold the same interface, text, components and key.
pub open spec fn same_address(a: ResourceAddress, b: ResourceAddress) -> bool {
    &&& a.interface == b.interface
    &&& a.raw@ == b.raw@
    &&& a.components@ == b.components@
    &&& a.dedup_key == b.dedup_key
}

impl ResourceAddress {
    /// Parses a VISA resource string into a typed address.
    ///
    /// The string is trimmed; an empty one is rejected. The interface is read off the
    /// upper-cased string; components are read from the trimmed string as written.
    pub fn parse(raw: &str) -> (r: Result<Self>)
        ensures
            trim(raw@).len() == 0 <==> r is Err,
            r matches Err(e) ==> e matches Error::InvalidAddress(m) && m@ == "empty address"@,
            r matches Ok(a) ==> {
                let t = trim(raw@);
                let kind = interface_of(spec_to_uppercase(t));
                &&& a.raw@ == t
                &&& a.interface == kind
                &&& a.components@ == parts_of(kind, t)
                &&& a.dedup_key == address_key(raw@)
            },
            r matches Ok(a) ==> parsed_as(a, raw@),
            r is Ok && is_ascii_text(trim(raw@)) ==> spec_to_uppercase(trim(raw@)) == ascii_upper(
                trim(raw@),
            ),
    {
        let trimmed = trim_str(raw);
        if trimmed.as_str().is_empty() {
            return Err(Error::InvalidAddress("empty address".to_owned()));
        }
        let upper = to_uppercase(trimmed.as_str());
        let interface = interface_from_upper(upper.as_str());
        let components = match interface {
            InterfaceKind::Usb => parse_usb(trimmed.as_str()),
            InterfaceKind::Gpib => parse_gpib(trimmed.as_str()),
            InterfaceKind::Tcpip => parse_tcpip(trimmed.as_str()),
            InterfaceKind::Serial => parse_serial(trimmed.as_str()),
            _ => AddressParts::empty(),
        };
        let dedup_key = compute_dedup_key(interface, upper.as_str());
        Ok(ResourceAddress { interface, raw: trimmed, components, dedup_key })
    }

    /// A copy of this address.
    pub fn duplicate(&self) -> (r: Self)
        ensures
            same_address(r, *self),
    {
        ResourceAddress {
            interface: self.interface,
            raw: self.raw.clone(),
            components: self.components.duplicate(),
            dedup_key: self.dedup_key,
        }
    }

    /// Returns the canonical dedup key for merge operations.
    pub fn dedup_key(&self) -> (r: u64)
        ensures
            r == self.dedup_key,
    {
        self.dedup_key
    }
}

/// Addresses written the same up to letter case (and surrounding whitespace) share a
/// dedup key.
pub proof fn lemma_dedup_case_insensitive(raw_a: Seq<char>, raw_b: Seq<char>)
    requires
        spec_to_uppercase(trim(raw_a)) == spec_to_uppercase(trim(raw_b)),
    ensures
        address_key(raw_a) == address_key(raw_b),
{
}

fn interface_from_upper(upper: &str) -> (r: InterfaceKind)
    ensures
        r == interface_of(upper@),
{
    let u = chars_of(upper);
    let usb = chars_of("USB");
    let gpib = chars_of("GPIB");
    let tcpip = chars_of("TCPIP");
    let tcp = chars_of("TCP");
    let asrl = chars_of("ASRL");
    let vxi = chars_of("VXI");
    let pxi = chars_of("PXI");
    if chars_start_with(u.as_slice(), usb.as_slice()) {
        InterfaceKind::Usb
    } else if chars_start_with(u.as_slice(), gpib.as_slice()) {
        InterfaceKind::Gpib
    } else if chars_start_with(u.as_slice(), tcpip.as_slice()) || chars_start_with(
        u.as_slice(),
        tcp.as_slice(),
    ) {
        InterfaceKind::Tcpip
    } else if chars_start_with(u.as_slice(), asrl.as_slice()) {
        InterfaceKind::Serial
    } else if chars_start_with(u.as_slice(), vxi.as_slice()) {
        InterfaceKind::Vxi
    } else if chars_start_with(u.as_slice(), pxi.as_slice()) {
        InterfaceKind::Pxi
    } else {
        InterfaceKind::Unknown
    }
}

fn address_pieces(raw: &str) -> (r: Vec<Vec<char>>)
    ensures
        r@.len() == split(raw@, "::"@).len(),
        r@.len() >= 1,
        forall|i: int| 0 <= i < r@.len() ==> #[trigger] r@[i]@ == split(raw@, "::"@)[i],
{
    proof {
        reveal_strlit("::");
    }
    let sep = chars_of("::");
    let s = chars_of(raw);
    let pieces = split_chars(s.as_slice(), sep.as_slice());
    proof {
        lemma_split_nonempty(raw@, "::"@);
    }
    pieces
}

proof fn lemma_split_nonempty(s: Seq<char>, sep: Seq<char>)
    ensures
        split(s, sep).len() >= 1,
    decreases s.len(),
{
    if sep.len() > 0 {
        if let Some(i) = crate::text::find_chars_from(s, sep, 0) {
            if i + sep.len() <= s.len() && i >= 0 {
                lemma_split_nonempty(s.skip(i + sep.len()), sep);
            }
        }
    }
}

fn piece_text(pieces: &Vec<Vec<char>>, i: usize) -> (r: Option<String>)
    ensures
        opt_text(r) == part(pieces@.map_values(|v: Vec<char>| v@), i as int),
{
    if i < pieces.len() {
        Some(string_from_chars(pieces[i].as_slice()))
    } else {
        None
    }
}

fn piece_u32(pieces: &Vec<Vec<char>>, i: usize) -> (r: Option<u32>)
    ensures
        r == opt_u32(part(pieces@.map_values(|v: Vec<char>| v@), i as int)),
{
    if i < pieces.len() {
        parse_unsigned_chars(pieces[i].as_slice(), u32::MAX)
    } else {
        None
    }
}

fn normalize_hex_id(s: &[char]) -> (r: String)
    ensures
        r@ == normalized_hex_id(s@),
{
    proof {
        reveal_strlit("0x");
        reveal_strlit("0X");
    }
    let (a, b) = trim_bounds(s);
    let t = sub_chars(s, a, b);
    let lower_prefix = chars_of("0x");
    let upper_prefix = chars_of("0X");
    let once = strip_all_prefix_chars(t.as_slice(), lower_prefix.as_slice());
    let twice = strip_all_prefix_chars(once.as_slice(), upper_prefix.as_slice());
    let text = string_from_chars(twice.as_slice());
    to_uppercase(text.as_str())
}

fn piece_hex_id(pieces: &Vec<Vec<char>>, i: usize) -> (r: Option<String>)
    ensures
        opt_text(r) == opt_hex_id(part(pieces@.map_values(|v: Vec<char>| v@), i as int)),
{
    if i < pieces.len() {
        Some(normalize_hex_id(pieces[i].as_slice()))
    } else {
        None
    }
}

fn number_after_prefix(s: &[char], prefix: &str) -> (r: Option<u32>)
    ensures
        r == number_after(s@, prefix@),
{
    let p = chars_of(prefix);
    if chars_start_with(s, p.as_slice()) {
        let rest = sub_chars(s, p.len(), s.len());
        assert(rest@ =~= s@.skip(p@.len() as int));
        parse_unsigned_chars(rest.as_slice(), u32::MAX)
    } else {
        None
    }
}

fn parse_usb(raw: &str) -> (r: AddressParts)
    ensures
        r@ == usb_parts(raw@),
{
    let pieces = address_pieces(raw);
    let ghost views = pieces@.map_values(|v: Vec<char>| v@);
    assert(views =~= split(raw@, "::"@));
    let vid = piece_hex_id(&pieces, 1);
    let pid = piece_hex_id(&pieces, 2);
    let serial = piece_text(&pieces, 3);
    AddressParts {
        board: None,
        primary_address: None,
        secondary_address: None,
        vid,
        pid,
        serial,
        host: None,
        port: None,
        lane: None,
    }
}

fn parse_gpib(raw: &str) -> (r: AddressParts)
    ensures
        r@ == gpib_parts(raw@),
{
    proof {
        reveal_strlit("GPIB");
    }
    let pieces = address_pieces(raw);
    let ghost views = pieces@.map_values(|v: Vec<char>| v@);
    assert(views =~= split(raw@, "::"@));
    let board = number_after_prefix(pieces[0].as_slice(), "GPIB");
    let primary_address = piece_u32(&pieces, 1);
    let secondary_address = piece_u32(&pieces, 2);
    AddressParts {
        board,
        primary_address,
        secondary_address,
        vid: None,
        pid: None,
        serial: None,
        host: None,
        port: None,
        lane: None,
    }
}

fn parse_tcpip(raw: &str) -> (r: AddressParts)
    ensures
        r@ == tcpip_parts(raw@),
{
    let pieces = address_pieces(raw);
    let ghost views = pieces@.map_values(|v: Vec<char>| v@);
    assert(views =~= split(raw@, "::"@));
    let host = piece_text(&pieces, 1);
    let port = if 3 < pieces.len() {
        match parse_unsigned_chars(pieces[3].as_slice(), 65535) {
            Some(v) => Some(v as u16),
            None => None,
        }
    } else {
        None
    };
    AddressParts {
        board: None,
        primary_address: None,
        secondary_address: None,
        vid: None,
        pid: None,
        serial: None,
        host,
        port,
        lane: None,
    }
}

fn parse_serial(raw: &str) -> (r: AddressParts)
    ensures
        r@ == serial_parts(raw@),
{
    proof {
        reveal_strlit("ASRL");
    }
    let pieces = address_pieces(raw);
    let ghost views = pieces@.map_values(|v: Vec<char>| v@);
    assert(views =~= split(raw@, "::"@));
    let board = number_after_prefix(pieces[0].as_slice(), "ASRL");
    AddressParts {
        board,
        primary_address: None,
        secondary_address: None,
        vid: None,
        pid: None,
        serial: None,
        host: None,
        port: None,
        lane: None,
    }
}


/// `n` written with exactly `d` decimal digit characters, most significant first,
/// with leading zeros.
pub open spec fn digit_chars(n: nat, d: nat) -> Seq<char>
    decreases d,
{
    if d == 0 {
        Seq::empty()
    } else {
        digit_chars(n / 10, (d - 1) as nat).push(((0x30 + n % 10) as u32) as char)
    }
}

proof fn lemma_digit_chars(n: nat, d: nat)
    requires
        n < crate::scpi::framing::pow10(d),
    ensures
        digit_chars(n, d).len() == d,
        all_digit_chars(digit_chars(n, d)),
        digits_value(digit_chars(n, d)) == n,
        forall|i: int| 0 <= i < d ==> #[trigger] digit_chars(n, d)[i] != ':' && digit_chars(n, d)[i] != '+',
    decreases d,
{
    if d == 0 {
        assert(n == 0);
    } else {
        let p = crate::scpi::framing::pow10((d - 1) as nat);
        assert(n / 10 < p) by (nonlinear_arith)
            requires
                n < 10 * p,
        ;
        lemma_digit_chars(n / 10, (d - 1) as nat);
        let s = digit_chars(n, d);
        let prev = digit_chars(n / 10, (d - 1) as nat);
        assert(s.drop_last() =~= prev);
        assert(0 <= n % 10 < 10);
        let c = ((0x30 + n % 10) as u32) as char;
        assert(s.last() == c);
        assert((c as u32) == 0x30 + n % 10);
        assert(n == (n / 10) * 10 + n % 10) by (nonlinear_arith);
        assert(digits_value(s) == digits_value(prev) * 10 + (s.last() as u32 - '0' as u32) as nat);
        assert forall|i: int| 0 <= i < s.len() implies is_digit_char(#[trigger] s[i]) by {
            if i < s.len() - 1 {
                assert(s[i] == prev[i]);
            }
        }
        assert forall|i: int| 0 <= i < d implies #[trigger] s[i] != ':' && s[i] != '+' by {
            if i < d - 1 {
                assert(s[i] == prev[i]);
            }
        }
    }
}

proof fn lemma_find_first(s: Seq<char>, needle: Seq<char>, i: int, p: int)
    requires
        0 <= i <= p,
        occurs_at(s, needle, p),
        forall|j: int| i <= j < p ==> !occurs_at(s, needle, j),
    ensures
        find_chars_from(s, needle, i) == Some(p),
    decreases p - i,
{
    if i < p {
        lemma_find_first(s, needle, i + 1, p);
    }
}

/// A serial resource: a string whose upper-cased form starts with `ASRL` (and not
/// with `USB`, `GPIB` or `TCP`) parses as a serial interface, and when it is written
/// `ASRL<n>::...` with `n` in decimal digits, its board is `n`.
pub proof fn lemma_serial_address(a: ResourceAddress, raw: Seq<char>, n: nat, d: nat, rest: Seq<char>)
    requires
        parsed_as(a, raw),
        starts_with(spec_to_uppercase(trim(raw)), "ASRL"@),
        !starts_with(spec_to_uppercase(trim(raw)), "USB"@),
        !starts_with(spec_to_uppercase(trim(raw)), "GPIB"@),
        !starts_with(spec_to_uppercase(trim(raw)), "TCP"@),
    ensures
        a.interface == InterfaceKind::Serial,
        trim(raw) == "ASRL"@ + digit_chars(n, d) + "::"@ + rest && 1 <= d && n
            < crate::scpi::framing::pow10(d) && n <= u32::MAX ==> a.components@.board == Some(n as u32),
{
    reveal_strlit("ASRL");
    reveal_strlit("USB");
    reveal_strlit("GPIB");
    reveal_strlit("TCP");
    reveal_strlit("TCPIP");
    reveal_strlit("::");
    let upper = spec_to_uppercase(trim(raw));
    if starts_with(upper, "TCPIP"@) {
        assert(upper.take(3) =~= upper.take(5).take(3));
        assert("TCPIP"@.take(3) =~= "TCP"@);
    }
    assert(interface_of(upper) == InterfaceKind::Serial);
    let t = trim(raw);
    if t == "ASRL"@ + digit_chars(n, d) + "::"@ + rest && 1 <= d && n < crate::scpi::framing::pow10(d)
        && n <= u32::MAX {
        lemma_digit_chars(n, d);
        let ds = digit_chars(n, d);
        let p: int = 4 + d as int;
        assert(t[p] == ':' && t[p + 1] == ':');
        assert(occurs_at(t, "::"@, p)) by {
            assert(t.subrange(p, p + 2) =~= "::"@);
        }
        assert forall|j: int| 0 <= j < p implies !occurs_at(t, "::"@, j) by {
            if j < 4 {
                assert(t[j] == "ASRL"@[j]);
            } else {
                assert(t[j] == ds[j - 4]);
            }
            if occurs_at(t, "::"@, j) {
                assert(t.subrange(j, j + 2)[0] == t[j]);
            }
        }
        lemma_find_first(t, "::"@, 0, p);
        let parts = split(t, "::"@);
        assert(parts[0] =~= "ASRL"@ + ds);
        assert(starts_with(parts[0], "ASRL"@)) by {
            assert(parts[0].take(4) =~= "ASRL"@);
        }
        assert(parts[0].skip(4) =~= ds);
        assert(!(ds.len() >= 2 && ds[0] == '+'));
        assert(unsigned_value(ds) == Some(n));
    }
}


/// The interface of a parsed address is read off the start of its upper-cased
/// text: `USB`, then `GPIB`, then `TCPIP` or `TCP`, then `ASRL`, `VXI` and `PXI`, the
/// first that matches; any other start is an unknown interface.
pub proof fn lemma_interface_by_prefix(a: ResourceAddress, raw: Seq<char>)
    requires
        parsed_as(a, raw),
    ensures
        ({
            let u = spec_to_uppercase(trim(raw));
            a.interface == if u.len() >= 3 && u.take(3) == seq!['U', 'S', 'B'] {
                InterfaceKind::Usb
            } else if u.len() >= 4 && u.take(4) == seq!['G', 'P', 'I', 'B'] {
                InterfaceKind::Gpib
            } else if u.len() >= 3 && u.take(3) == seq!['T', 'C', 'P'] {
                InterfaceKind::Tcpip
            } else if u.len() >= 4 && u.take(4) == seq!['A', 'S', 'R', 'L'] {
                InterfaceKind::Serial
            } else if u.len() >= 3 && u.take(3) == seq!['V', 'X', 'I'] {
                InterfaceKind::Vxi
            } else if u.len() >= 3 && u.take(3) == seq!['P', 'X', 'I'] {
                InterfaceKind::Pxi
            } else {
                InterfaceKind::Unknown
            }
        }),
{
    reveal_strlit("USB");
    reveal_strlit("GPIB");
    reveal_strlit("TCPIP");
    reveal_strlit("TCP");
    reveal_strlit("ASRL");
    reveal_strlit("VXI");
    reveal_strlit("PXI");
    let u = spec_to_uppercase(trim(raw));
    assert("USB"@ =~= seq!['U', 'S', 'B']);
    assert("GPIB"@ =~= seq!['G', 'P', 'I', 'B']);
    assert("TCP"@ =~= seq!['T', 'C', 'P']);
    assert("ASRL"@ =~= seq!['A', 'S', 'R', 'L']);
    assert("VXI"@ =~= seq!['V', 'X', 'I']);
    assert("PXI"@ =~= seq!['P', 'X', 'I']);
    if starts_with(u, "TCPIP"@) {
        assert(u.take(3) =~= u.take(5).take(3));
        assert("TCPIP"@.take(3) =~= "TCP"@);
    }
}

} // verus!
