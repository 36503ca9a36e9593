//! Hardware addresses and the wake payload built from them.
use vstd::prelude::*;

use crate::text::{chars_of, push_char, string_of};

verus! {

pub const MAC_ADDRESS_SIZE: usize = 6;

pub const HEADER_SIZE: usize = 6;

pub const MAC_REPETITIONS: usize = 16;

pub const MAGIC_PACKET_SIZE: usize = 102;

/// Why a textual hardware address was rejected.
#[derive(Debug, PartialEq, Clone)]
pub enum InvalidMacError {
    WrongPartCount { expected: usize, actual: usize },
    InvalidHexString(String),
}

/// A six byte hardware address.
#[derive(Debug, PartialEq, Eq, Clone, Copy)]
pub struct MacAddress(pub [u8; 6]);

impl View for MacAddress {
    type V = Seq<u8>;

    open spec fn view(&self) -> Seq<u8> {
        self.0@
    }
}

/// The pieces of `s` between the separator characters, as `str::split` yields them.
pub open spec fn split_on(s: Seq<char>, sep: char) -> Seq<Seq<char>>
    decreases s.len(),
{
    if s.len() == 0 {
        seq![Seq::<char>::empty()]
    } else {
        let rest = split_on(s.drop_last(), sep);
        if s.last() == sep {
            rest.push(Seq::<char>::empty())
        } else {
            rest.update(rest.len() - 1, rest.last().push(s.last()))
        }
    }
}

pub open spec fn is_hex_digit(c: char) -> bool {
    ('0' <= c && c <= '9') || ('a' <= c && c <= 'f') || ('A' <= c && c <= 'F')
}

pub open spec fn hex_digit_value(c: char) -> nat {
    if '0' <= c && c <= '9' {
        (c as nat - '0' as nat) as nat
    } else if 'a' <= c && c <= 'f' {
        (c as nat - 'a' as nat + 10) as nat
    } else {
        (c as nat - 'A' as nat + 10) as nat
    }
}

/// The byte a group denotes: exactly two hexadecimal digits, the high one first.
pub open spec fn hex_byte(seg: Seq<char>) -> Option<u8> {
    if seg.len() == 2 && is_hex_digit(seg[0]) && is_hex_digit(seg[1]) {
        Some((hex_digit_value(seg[0]) * 16 + hex_digit_value(seg[1])) as u8)
    } else {
        None
    }
}

/// The index of the first segment that is not a byte, if any.
pub open spec fn first_bad_segment(segs: Seq<Seq<char>>) -> Option<int>
    decreases segs.len(),
{
    if segs.len() == 0 {
        None
    } else {
        match first_bad_segment(segs.drop_last()) {
            Some(i) => Some(i),
            None => if hex_byte(segs.last()) is None {
                Some(segs.len() - 1)
            } else {
                None
            },
        }
    }
}

/// What parsing `s` yields: the bytes, or the error.
pub open spec fn parse_mac(s: Seq<char>) -> Result<Seq<u8>, (usize, Option<Seq<char>>)> {
    let segs = split_on(s, ':');
    if segs.len() != 6 {
        Err((segs.len() as usize, None))
    } else {
        match first_bad_segment(segs) {
            Some(i) => Err((6, Some(segs[i]))),
            None => Ok(Seq::new(6, |i: int| hex_byte(segs[i])->0)),
        }
    }
}

/// Upper-case hexadecimal digit for a value below 16.
pub open spec fn hex_char(v: u8) -> char {
    if v < 10 {
        ((v + 48) as u8) as char
    } else {
        ((v + 55) as u8) as char
    }
}

/// Two upper-case digits of a byte.
pub open spec fn byte_text(b: u8) -> Seq<char> {
    seq![hex_char(b / 16), hex_char(b % 16)]
}

/// Bytes written as two digit groups separated by `:`.
pub open spec fn mac_text(bytes: Seq<u8>) -> Seq<char>
    decreases bytes.len(),
{
    if bytes.len() == 0 {
        Seq::empty()
    } else if bytes.len() == 1 {
        byte_text(bytes[0])
    } else {
        mac_text(bytes.drop_last()) + seq![':'] + byte_text(bytes.last())
    }
}

/// The wake payload for an address: six `0xFF` bytes, then the address sixteen times.
pub open spec fn magic_bytes(mac: Seq<u8>) -> Seq<u8> {
    Seq::new(
        102,
        |i: int|
            if i < 6 {
                0xFFu8
            } else {
                mac[(i - 6) % 6]
            },
    )
}

fn hex_digit(c: char) -> (r: Option<u8>)
    ensures
        r is Some <==> is_hex_digit(c),
        r is Some ==> r->0 as nat == hex_digit_value(c) && r->0 < 16,
{
    if '0' <= c && c <= '9' {
        Some(((c as u32) - 48) as u8)
    } else if 'a' <= c && c <= 'f' {
        Some(((c as u32) - 87) as u8)
    } else if 'A' <= c && c <= 'F' {
        Some(((c as u32) - 55) as u8)
    } else {
        None
    }
}

/// Reads one group of two hexadecimal digits.
fn parse_hex_byte(seg: &Vec<char>) -> (r: Option<u8>)
    ensures
        r == hex_byte(seg@),
{
    if seg.len() != 2 {
        return None;
    }
    match (hex_digit(seg[0]), hex_digit(seg[1])) {
        (Some(high), Some(low)) => Some(high * 16 + low),
        _ => None,
    }
}

/// Splits `s` at every `sep`, as `str::split` does.
fn split_chars(s: &Vec<char>, sep: char) -> (r: Vec<Vec<char>>)
    ensures
        r@.map_values(|p: Vec<char>| p@) == split_on(s@, sep),
{
    let mut parts: Vec<Vec<char>> = Vec::new();
    let mut cur: Vec<char> = Vec::new();
    let mut i: usize = 0;
    assert(s@.take(0) =~= Seq::<char>::empty());
    assert(parts@.map_values(|p: Vec<char>| p@).push(cur@) =~= seq![Seq::<char>::empty()]);
    while i < s.len()
        invariant
            i <= s.len(),
            parts@.map_values(|p: Vec<char>| p@).push(cur@) == split_on(s@.take(i as int), sep),
        decreases s.len() - i,
    {
        let ghost before = parts@.map_values(|p: Vec<char>| p@).push(cur@);
        assert(s@.take(i + 1).drop_last() =~= s@.take(i as int));
        if s[i] == sep {
            let done = cur;
            parts.push(done);
            cur = Vec::new();
            assert(parts@.map_values(|p: Vec<char>| p@).push(cur@) =~= before.push(Seq::<char>::empty()));
        } else {
            cur.push(s[i]);
            assert(parts@.map_values(|p: Vec<char>| p@).push(cur@) =~= before.update(
                before.len() - 1,
                before.last().push(s@[i as int]),
            ));
        }
        i = i + 1;
    }
    assert(s@.take(i as int) =~= s@);
    parts.push(cur);
    assert(parts@.map_values(|p: Vec<char>| p@) =~= split_on(s@, sep));
    parts
}

fn push_byte_text(s: &mut String, b: u8)
    ensures
        final(s)@ == old(s)@ + byte_text(b),
{
    let hi = b / 16;
    let lo = b % 16;
    let c_hi = if hi < 10 { (hi + 48) as char } else { (hi + 55) as char };
    let c_lo = if lo < 10 { (lo + 48) as char } else { (lo + 55) as char };
    push_char(s, c_hi);
    push_char(s, c_lo);
    assert(final(s)@ =~= old(s)@ + byte_text(b));
}

/// `r` is what parsing `s` must give.
pub open spec fn parsed_as(r: Result<MacAddress, InvalidMacError>, s: Seq<char>) -> bool {
    match parse_mac(s) {
        Ok(bytes) => r matches Ok(m) && m@ == bytes,
        Err((n, None)) => r == Err::<MacAddress, InvalidMacError>(
            InvalidMacError::WrongPartCount { expected: 6, actual: n },
        ),
        Err((_, Some(seg))) => r matches Err(InvalidMacError::InvalidHexString(t)) && t@ == seg,
    }
}

impl MacAddress {
    /// Parses six colon separated groups of two hexadecimal digits.
    pub fn from_str(s: &str) -> (r: Result<MacAddress, InvalidMacError>)
        ensures
            parsed_as(r, s@),
    {
        let cs = chars_of(s);
        let parts = split_chars(&cs, ':');
        let ghost segs = split_on(s@, ':');
        assert(parts@.len() == segs.len());
        if parts.len() != MAC_ADDRESS_SIZE {
            return Err(InvalidMacError::WrongPartCount { expected: MAC_ADDRESS_SIZE, actual: parts.len() });
        }
        let mut mac: [u8; 6] = [0u8; 6];
        let mut i: usize = 0;
        while i < 6
            invariant
                i <= 6,
                segs == split_on(s@, ':'),
                segs.len() == 6,
                parts@.len() == 6,
                forall|j: int| 0 <= j < 6 ==> #[trigger] parts@[j]@ == segs[j],
                first_bad_segment(segs.take(i as int)) is None,
                forall|j: int| 0 <= j < i ==> hex_byte(segs[j]) == Some(#[trigger] mac@[j]),
            decreases 6 - i,
        {
            assert(parts@.map_values(|p: Vec<char>| p@)[i as int] == parts@[i as int]@);
            assert(segs.take(i + 1).drop_last() =~= segs.take(i as int));
            match parse_hex_byte(&parts[i]) {
                None => {
                    assert(parts@[i as int]@ == segs[i as int]);
                    let bad = string_of(&parts[i]);
                    proof {
                        lemma_first_bad_extends(segs, i as int);
                    }
                    return Err(InvalidMacError::InvalidHexString(bad));
                },
                Some(b) => {
                    mac[i] = b;
                    i = i + 1;
                },
            }
        }
        assert(segs.take(6) =~= segs);
        let r = MacAddress(mac);
        assert(r@ =~= Seq::new(6, |j: int| hex_byte(segs[j])->0));
        Ok(r)
    }

    /// The address as upper-case two digit groups separated by `:`.
    pub fn to_string(&self) -> (r: String)
        ensures
            r@ == mac_text(self@),
    {
        let mut s = String::new();
        let mut i: usize = 0;
        while i < 6
            invariant
                i <= 6,
                self@.len() == 6,
                s@ == mac_text(self@.take(i as int)),
            decreases 6 - i,
        {
            assert(self@.take(i + 1).drop_last() =~= self@.take(i as int));
            if i > 0 {
                push_char(&mut s, ':');
            }
            push_byte_text(&mut s, self.0[i]);
            i = i + 1;
            assert(self@.take(i as int).last() == self@[i - 1]);
        }
        assert(self@.take(6) =~= self@);
        s
    }

    /// A copy of the address.
    pub fn snapshot(&self) -> (r: MacAddress)
        ensures
            r@ == self@,
    {
        MacAddress(self.0)
    }
}

proof fn lemma_first_bad_extends(segs: Seq<Seq<char>>, i: int)
    requires
        0 <= i < segs.len(),
        first_bad_segment(segs.take(i)) is None,
        hex_byte(segs[i]) is None,
    ensures
        first_bad_segment(segs) == Some(i),
{
    assert(segs.take(i + 1).drop_last() =~= segs.take(i));
    assert(first_bad_segment(segs.take(i + 1)) == Some(i));
    lemma_first_bad_prefix(segs, i + 1);
}

proof fn lemma_first_bad_prefix(segs: Seq<Seq<char>>, n: int)
    requires
        0 <= n <= segs.len(),
        first_bad_segment(segs.take(n)) is Some,
    ensures
        first_bad_segment(segs) == first_bad_segment(segs.take(n)),
    decreases segs.len() - n,
{
    if n < segs.len() {
        assert(segs.take(n + 1).drop_last() =~= segs.take(n));
        lemma_first_bad_prefix(segs, n + 1);
    } else {
        assert(segs.take(n) =~= segs);
    }
}

/// The fixed-size broadcast payload that wakes a machine.
#[derive(Debug, PartialEq, Eq, Clone, Copy)]
pub struct MagicPacket(pub [u8; 102]);

impl View for MagicPacket {
    type V = Seq<u8>;

    open spec fn view(&self) -> Seq<u8> {
        self.0@
    }
}

impl MagicPacket {
    /// Six `0xFF` bytes followed by sixteen copies of the address.
    pub fn from_mac(mac: &MacAddress) -> (r: MagicPacket)
        ensures
            r@ == magic_bytes(mac@),
    {
        let mut bytes: [u8; 102] = [0xFFu8; 102];
        let mut i: usize = HEADER_SIZE;
        while i < MAGIC_PACKET_SIZE
            invariant
                HEADER_SIZE <= i <= MAGIC_PACKET_SIZE,
                bytes@.len() == 102,
                mac@.len() == 6,
                forall|j: int| 0 <= j < i ==> #[trigger] bytes@[j] == magic_bytes(mac@)[j],
            decreases MAGIC_PACKET_SIZE - i,
        {
            bytes[i] = mac.0[(i - HEADER_SIZE) % MAC_ADDRESS_SIZE];
            i = i + 1;
        }
        let r = MagicPacket(bytes);
        assert(r@ =~= magic_bytes(mac@));
        r
    }

    /// The payload bytes.
    pub fn as_bytes(&self) -> (r: &[u8; 102])
        ensures
            r@ == self@,
    {
        &self.0
    }
}

} // verus!
