//! Account addresses: hexadecimal decoding and the EIP-55 checksum rendering.
//!
//! Only the Keccak-256 digest comes from an outside crate; the checksum casing
//! rule over that digest is specified and verified here.
use vstd::prelude::*;

use crate::hexnum::{
    hex_lower_ascii, hex_lower_char, hex_upper_char, hex_val, is_hex_digit,
};
use crate::text::no_nl;

verus! {

/// What the Keccak-256 digest of `input` is; the digest itself is computed by
/// an outside crate.
pub uninterp spec fn keccak_of(input: Seq<u8>) -> Seq<u8>;

/// Relies on `alloy_primitives::keccak256`: the Keccak-256 digest of the
/// input, 32 bytes, a function of the input bytes alone.
#[verifier::external_body]
fn keccak256_digest(input: &Vec<u8>) -> (r: Vec<u8>)
    ensures
        r@ == keccak_of(input@),
        r@.len() == 32,
{
    alloy_primitives::keccak256(input.as_slice()).to_vec()
}

/// True when `s` is a whole address line: `0x` and forty hexadecimal digits.
pub open spec fn addr_hex_ok(s: Seq<char>) -> bool {
    s.len() == 42 && s[0] == '0' && s[1] == 'x' && (forall|i: int|
        2 <= i < 42 ==> is_hex_digit(#[trigger] s[i]))
}

/// The twenty bytes denoted by an address line.
pub open spec fn addr_bytes(s: Seq<char>) -> Seq<u8> {
    Seq::new(20, |i: int| (hex_val(s[2 + 2 * i]) * 16 + hex_val(s[3 + 2 * i])) as u8)
}

/// Whether the EIP-55 rule puts the hexadecimal digit at position `i` of forty
/// in upper case: the top bit of the matching nibble of the digest `h`.
pub open spec fn eip55_upper(h: Seq<u8>, i: int) -> bool {
    if i % 2 == 0 {
        (h[i / 2] as nat / 128) % 2 == 1
    } else {
        (h[i / 2] as nat / 8) % 2 == 1
    }
}

/// The forty checksum-cased hexadecimal digits of `b` under digest `h`.
pub open spec fn eip55_digits(b: Seq<u8>, h: Seq<u8>) -> Seq<char> {
    Seq::new(40, |i: int|
        {
            let d = if i % 2 == 0 {
                b[i / 2] as nat / 16
            } else {
                b[i / 2] as nat % 16
            };
            if eip55_upper(h, i) {
                hex_upper_char(d)
            } else {
                hex_lower_char(d)
            }
        },
    )
}

/// The full checksummed address line of the twenty bytes `b`.
pub open spec fn eip55_of(b: Seq<u8>) -> Seq<char> {
    seq!['0', 'x'] + eip55_digits(b, keccak_of(hex_lower_ascii(b)))
}

/// A hexadecimal digit character of either case denotes its value and is no
/// line delimiter.
pub proof fn lemma_hex_char_val(d: nat)
    requires
        d < 16,
    ensures
        is_hex_digit(hex_lower_char(d)),
        is_hex_digit(hex_upper_char(d)),
        hex_val(hex_lower_char(d)) == d,
        hex_val(hex_upper_char(d)) == d,
        hex_lower_char(d) != '\n',
        hex_upper_char(d) != '\n',
{
}

/// The checksummed line of twenty bytes is a well-formed address line and
/// denotes those bytes again, whatever the digest is.
pub proof fn lemma_eip55_ok(b: Seq<u8>)
    requires
        b.len() == 20,
    ensures
        addr_hex_ok(eip55_of(b)),
        addr_bytes(eip55_of(b)) == b,
        no_nl(eip55_of(b)),
{
    let s = eip55_of(b);
    let h = keccak_of(hex_lower_ascii(b));
    let digs = eip55_digits(b, h);
    assert(s.len() == 42);
    assert forall|i: int| 0 <= i < 40 implies is_hex_digit(#[trigger] digs[i]) && digs[i] != '\n' by {
        let d = if i % 2 == 0 {
            b[i / 2] as nat / 16
        } else {
            b[i / 2] as nat % 16
        };
        assert(d < 16);
        lemma_hex_char_val(d);
    }
    assert forall|i: int| 2 <= i < 42 implies is_hex_digit(#[trigger] s[i]) by {
        assert(s[i] == digs[i - 2]);
    }
    assert forall|j: int| 0 <= j < 20 implies #[trigger] addr_bytes(s)[j] == b[j] by {
        let hi = b[j] as nat / 16;
        let lo = b[j] as nat % 16;
        assert(s[2 + 2 * j] == digs[2 * j]);
        assert(s[3 + 2 * j] == digs[2 * j + 1]);
        assert((2 * j) % 2 == 0);
        assert((2 * j + 1) % 2 == 1);
        assert((2 * j) / 2 == j);
        assert((2 * j + 1) / 2 == j);
        lemma_hex_char_val(hi);
        lemma_hex_char_val(lo);
        assert(hex_val(s[2 + 2 * j]) == hi);
        assert(hex_val(s[3 + 2 * j]) == lo);
        assert(hi * 16 + lo == b[j]);
    }
    assert(addr_bytes(s) =~= b);
    assert forall|i: int| 0 <= i < s.len() implies s[i] != '\n' by {
        if i >= 2 {
            assert(s[i] == digs[i - 2]);
        }
    }
}

/// The value of a hexadecimal digit character; `None` on any other character.
pub fn hex_val_exec(c: char) -> (r: Option<u8>)
    ensures
        match r {
            Some(v) => is_hex_digit(c) && v as nat == hex_val(c) && v < 16,
            None => !is_hex_digit(c),
        },
{
    let u = c as u32;
    if 48 <= u && u <= 57 {
        Some((u - 48) as u8)
    } else if 97 <= u && u <= 102 {
        Some((u - 87) as u8)
    } else if 65 <= u && u <= 70 {
        Some((u - 55) as u8)
    } else {
        None
    }
}

/// Decodes a whole address line to its twenty bytes; `None` exactly when the
/// line is not `0x` followed by forty hexadecimal digits.
pub fn decode_addr_line(line: &Vec<char>) -> (r: Option<Vec<u8>>)
    ensures
        match r {
            Some(b) => addr_hex_ok(line@) && b@ == addr_bytes(line@) && b@.len() == 20,
            None => !addr_hex_ok(line@),
        },
{
    if line.len() != 42 {
        return None;
    }
    if line[0] != '0' || line[1] != 'x' {
        return None;
    }
    let mut out: Vec<u8> = Vec::new();
    let mut i: usize = 0;
    while i < 20
        invariant
            i <= 20,
            line@.len() == 42,
            line@[0] == '0',
            line@[1] == 'x',
            out@.len() == i,
            forall|k: int| 2 <= k < 2 + 2 * i ==> is_hex_digit(#[trigger] line@[k]),
            forall|j: int| 0 <= j < i ==> #[trigger] out@[j] == (hex_val(line@[2 + 2 * j]) * 16
                + hex_val(line@[3 + 2 * j])) as u8,
        decreases 20 - i,
    {
        let c1 = line[2 + 2 * i];
        let c2 = line[3 + 2 * i];
        let v1 = match hex_val_exec(c1) {
            Some(v) => v,
            None => {
                return None;
            },
        };
        let v2 = match hex_val_exec(c2) {
            Some(v) => v,
            None => {
                return None;
            },
        };
        out.push(v1 * 16 + v2);
        i = i + 1;
    }
    proof {
        assert(addr_hex_ok(line@));
        assert(out@ =~= addr_bytes(line@));
    }
    Some(out)
}

/// The lower-case hexadecimal digit character of a value below sixteen.
pub fn hex_lower_exec(d: u8) -> (r: char)
    requires
        d < 16,
    ensures
        r == hex_lower_char(d as nat),
{
    if d == 0 { '0' } else if d == 1 { '1' } else if d == 2 { '2' } else if d == 3 { '3' }
    else if d == 4 { '4' } else if d == 5 { '5' } else if d == 6 { '6' } else if d == 7 { '7' }
    else if d == 8 { '8' } else if d == 9 { '9' } else if d == 10 { 'a' } else if d == 11 { 'b' }
    else if d == 12 { 'c' } else if d == 13 { 'd' } else if d == 14 { 'e' } else { 'f' }
}

/// The upper-case hexadecimal digit character of a value below sixteen.
pub fn hex_upper_exec(d: u8) -> (r: char)
    requires
        d < 16,
    ensures
        r == hex_upper_char(d as nat),
{
    if d < 10 {
        hex_lower_exec(d)
    } else if d == 10 { 'A' } else if d == 11 { 'B' } else if d == 12 { 'C' }
    else if d == 13 { 'D' } else if d == 14 { 'E' } else { 'F' }
}

/// Renders twenty bytes as the checksummed address line `eip55_of`.
pub fn checksum_address(b: &Vec<u8>) -> (r: Vec<char>)
    requires
        b@.len() == 20,
    ensures
        r@ == eip55_of(b@),
{
    let mut low: Vec<u8> = Vec::new();
    let mut i: usize = 0;
    while i < 40
        invariant
            i <= 40,
            b@.len() == 20,
            low@.len() == i,
            forall|k: int| 0 <= k < i ==> #[trigger] low@[k] == hex_lower_ascii(b@)[k],
        decreases 40 - i,
    {
        let j: usize = i / 2;
        let byte = b[j];
        let d: u8 = if i % 2 == 0 {
            byte / 16
        } else {
            byte % 16
        };
        let a: u8 = if d < 10 {
            48 + d
        } else {
            87 + d
        };
        proof {
            assert(j as int == i as int / 2);
            assert(hex_lower_ascii(b@)[i as int] == a);
        }
        low.push(a);
        i = i + 1;
    }
    proof {
        assert(low@ =~= hex_lower_ascii(b@));
    }
    let h = keccak256_digest(&low);
    let ghost hh = keccak_of(hex_lower_ascii(b@));
    proof {
        assert(h@ == hh);
    }
    let mut r: Vec<char> = Vec::new();
    r.push('0');
    r.push('x');
    let mut i: usize = 0;
    while i < 40
        invariant
            i <= 40,
            b@.len() == 20,
            h@ == hh,
            h@.len() == 32,
            r@.len() == 2 + i,
            r@[0] == '0',
            r@[1] == 'x',
            forall|k: int| 0 <= k < i ==> #[trigger] r@[2 + k] == eip55_digits(b@, hh)[k],
        decreases 40 - i,
    {
        let j: usize = i / 2;
        let byte = b[j];
        let d: u8 = if i % 2 == 0 {
            byte / 16
        } else {
            byte % 16
        };
        let hb = h[j];
        let up: bool = if i % 2 == 0 {
            (hb / 128) % 2 == 1
        } else {
            (hb / 8) % 2 == 1
        };
        let c = if up {
            hex_upper_exec(d)
        } else {
            hex_lower_exec(d)
        };
        proof {
            assert(j as int == i as int / 2);
            assert(up == eip55_upper(hh, i as int));
            assert(c == eip55_digits(b@, hh)[i as int]);
        }
        r.push(c);
        i = i + 1;
    }
    proof {
        let digs = eip55_digits(b@, hh);
        assert forall|k: int| 2 <= k < 42 implies #[trigger] r@[k] == digs[k - 2] by {
            assert(r@[2 + (k - 2)] == digs[k - 2]);
        }
        assert(r@ =~= eip55_of(b@));
    }
    r
}

} // verus!
