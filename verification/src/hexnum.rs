//! Hexadecimal and decimal digit codecs used by the address and chain-id
//! fields of the canonical text.
use vstd::prelude::*;

verus! {

/// True for an ASCII hexadecimal digit of either case.
pub open spec fn is_hex_digit(c: char) -> bool {
    (48 <= (c as u32) && (c as u32) <= 57) || (97 <= (c as u32) && (c as u32) <= 102) || (65 <= (
    c as u32) && (c as u32) <= 70)
}

/// Value of a hexadecimal digit; zero on other characters.
pub open spec fn hex_val(c: char) -> nat {
    if 48 <= (c as u32) && (c as u32) <= 57 {
        ((c as u32) - 48) as nat
    } else if 97 <= (c as u32) && (c as u32) <= 102 {
        ((c as u32) - 87) as nat
    } else if 65 <= (c as u32) && (c as u32) <= 70 {
        ((c as u32) - 55) as nat
    } else {
        0
    }
}

/// The lower-case hexadecimal digit character for a value below sixteen.
pub open spec fn hex_lower_char(d: nat) -> char {
    if d == 0 { '0' } else if d == 1 { '1' } else if d == 2 { '2' } else if d == 3 { '3' }
    else if d == 4 { '4' } else if d == 5 { '5' } else if d == 6 { '6' } else if d == 7 { '7' }
    else if d == 8 { '8' } else if d == 9 { '9' } else if d == 10 { 'a' } else if d == 11 { 'b' }
    else if d == 12 { 'c' } else if d == 13 { 'd' } else if d == 14 { 'e' } else { 'f' }
}

/// The upper-case hexadecimal digit character for a value below sixteen.
pub open spec fn hex_upper_char(d: nat) -> char {
    if d < 10 { hex_lower_char(d) } else if d == 10 { 'A' } else if d == 11 { 'B' }
    else if d == 12 { 'C' } else if d == 13 { 'D' } else if d == 14 { 'E' } else { 'F' }
}

/// The ASCII byte of the lower-case hexadecimal digit for a value below sixteen.
pub open spec fn hex_lower_byte(d: nat) -> u8 {
    if d < 10 { (48 + d) as u8 } else { (87 + d) as u8 }
}

/// Lower-case hexadecimal rendering of `b`, as ASCII bytes, two per byte.
pub open spec fn hex_lower_ascii(b: Seq<u8>) -> Seq<u8> {
    Seq::new(2 * b.len(), |i: int| if i % 2 == 0 {
        hex_lower_byte(b[i / 2] as nat / 16)
    } else {
        hex_lower_byte(b[i / 2] as nat % 16)
    })
}

/// True for an ASCII decimal digit.
pub open spec fn is_dec_digit(c: char) -> bool {
    48 <= (c as u32) && (c as u32) <= 57
}

/// Value of a decimal digit; zero on other characters.
pub open spec fn dec_digit_val(c: char) -> nat {
    if is_dec_digit(c) { ((c as u32) - 48) as nat } else { 0 }
}

/// The character of a decimal digit value below ten.
pub open spec fn dec_digit_char(d: nat) -> char {
    if d == 0 { '0' } else if d == 1 { '1' } else if d == 2 { '2' } else if d == 3 { '3' }
    else if d == 4 { '4' } else if d == 5 { '5' } else if d == 6 { '6' } else if d == 7 { '7' }
    else if d == 8 { '8' } else { '9' }
}

/// True when every character of `s` is a decimal digit.
pub open spec fn all_dec_digits(s: Seq<char>) -> bool {
    forall|i: int| 0 <= i < s.len() ==> is_dec_digit(#[trigger] s[i])
}

/// The numeric value of a decimal digit string.
pub open spec fn dec_val(s: Seq<char>) -> nat
    decreases s.len(),
{
    if s.len() == 0 {
        0
    } else {
        dec_val(s.drop_last()) * 10 + dec_digit_val(s.last())
    }
}

/// True when `s` is a decimal numeral denoting a value that fits in `u64`.
pub open spec fn is_dec_u64(s: Seq<char>) -> bool {
    s.len() > 0 && all_dec_digits(s) && dec_val(s) <= u64::MAX
}

/// The canonical (no leading zero) decimal numeral of `n`.
pub open spec fn dec_of(n: nat) -> Seq<char>
    decreases n,
{
    if n < 10 {
        seq![dec_digit_char(n)]
    } else {
        dec_of(n / 10).push(dec_digit_char(n % 10))
    }
}

pub proof fn lemma_dec_of_props(n: nat)
    ensures
        dec_of(n).len() >= 1,
        all_dec_digits(dec_of(n)),
        dec_val(dec_of(n)) == n,
    decreases n,
{
    if n < 10 {
        let w = seq![dec_digit_char(n)];
        assert(dec_of(n) == w);
        assert(w.drop_last() =~= Seq::<char>::empty());
        assert(w.last() == dec_digit_char(n));
        assert(dec_val(w) == dec_val(Seq::<char>::empty()) * 10 + dec_digit_val(dec_digit_char(n)));
    } else {
        lemma_dec_of_props(n / 10);
        let p = dec_of(n / 10);
        let w = p.push(dec_digit_char(n % 10));
        assert(w.drop_last() =~= p);
        assert(w.last() == dec_digit_char((n % 10) as nat));
        assert(dec_val(w) == dec_val(p) * 10 + dec_digit_val(dec_digit_char((n % 10) as nat)));
        assert(forall|i: int| 0 <= i < w.len() ==> is_dec_digit(#[trigger] w[i]));
    }
}

/// Peeling one digit off the front of a prefix.
pub proof fn lemma_dec_val_step(s: Seq<char>, k: int)
    requires
        0 <= k < s.len(),
    ensures
        dec_val(s.take(k + 1)) == dec_val(s.take(k)) * 10 + dec_digit_val(s[k]),
{
    let t = s.take(k + 1);
    assert(t.drop_last() =~= s.take(k));
    assert(t.last() == s[k]);
}

/// The value of the whole numeral is at least the value of any prefix.
pub proof fn lemma_dec_val_prefix(s: Seq<char>, k: int)
    requires
        0 <= k <= s.len(),
    ensures
        dec_val(s) >= dec_val(s.take(k)),
    decreases s.len() - k,
{
    if k == s.len() {
        assert(s.take(k) =~= s);
    } else {
        lemma_dec_val_step(s, k);
        lemma_dec_val_prefix(s, k + 1);
    }
}

/// The decimal digit character of a value below ten.
pub fn dec_digit_char_exec(d: u64) -> (r: char)
    requires
        d < 10,
    ensures
        r == dec_digit_char(d as nat),
{
    if d == 0 { '0' } else if d == 1 { '1' } else if d == 2 { '2' } else if d == 3 { '3' }
    else if d == 4 { '4' } else if d == 5 { '5' } else if d == 6 { '6' } else if d == 7 { '7' }
    else if d == 8 { '8' } else { '9' }
}

/// Renders `n` as its canonical decimal numeral.
pub fn u64_to_dec(n: u64) -> (r: Vec<char>)
    ensures
        r@ == dec_of(n as nat),
    decreases n,
{
    if n < 10 {
        let c = dec_digit_char_exec(n);
        let mut r: Vec<char> = Vec::new();
        r.push(c);
        proof {
            assert(r@ =~= dec_of(n as nat));
        }
        r
    } else {
        let mut r = u64_to_dec(n / 10);
        let c = dec_digit_char_exec(n % 10);
        r.push(c);
        proof {
            assert(r@ =~= dec_of((n / 10) as nat).push(dec_digit_char((n % 10) as nat)));
        }
        r
    }
}

/// Parses a decimal numeral; `None` exactly when `s` is empty, holds a
/// non-digit, or denotes a value above `u64::MAX`.
pub fn parse_u64_dec(s: &Vec<char>) -> (r: Option<u64>)
    ensures
        is_dec_u64(s@) ==> r == Some((dec_val(s@) as u64)),
        !is_dec_u64(s@) ==> r is None,
{
    if s.len() == 0 {
        return None;
    }
    let mut acc: u64 = 0;
    let mut i: usize = 0;
    while i < s.len()
        invariant
            0 < s@.len(),
            i <= s@.len(),
            all_dec_digits(s@.take(i as int)),
            acc as nat == dec_val(s@.take(i as int)),
        decreases s@.len() - i,
    {
        let c = s[i];
        let u = c as u32;
        if !(48 <= u && u <= 57) {
            proof {
                assert(!is_dec_digit(s@[i as int]));
            }
            return None;
        }
        let d: u64 = (u - 48) as u64;
        proof {
            assert(s@[i as int] == c);
            assert(is_dec_digit(s@[i as int]));
            assert(dec_digit_val(s@[i as int]) == d as nat);
            lemma_dec_val_step(s@, i as int);
        }
        if acc > (u64::MAX - d) / 10 {
            proof {
                assert(dec_val(s@.take(i + 1 as int)) > u64::MAX) by (nonlinear_arith)
                    requires
                        dec_val(s@.take(i + 1 as int)) == dec_val(s@.take(i as int)) * 10
                            + dec_digit_val(s@[i as int]),
                        dec_val(s@.take(i as int)) == acc as nat,
                        dec_digit_val(s@[i as int]) == d as nat,
                        acc > (u64::MAX - d) / 10,
                        d < 10,
                ;
                lemma_dec_val_prefix(s@, i + 1 as int);
            }
            return None;
        }
        proof {
            assert(acc * 10 + d <= u64::MAX) by (nonlinear_arith)
                requires
                    acc <= (u64::MAX - d) / 10,
                    d < 10,
            ;
        }
        acc = acc * 10 + d;
        proof {
            assert(s@.take(i + 1 as int) =~= s@.take(i as int).push(s@[i as int]));
            assert(all_dec_digits(s@.take(i + 1 as int)));
        }
        i = i + 1;
    }
    proof {
        assert(s@.take(s@.len() as int) =~= s@);
    }
    Some(acc)
}

} // verus!
