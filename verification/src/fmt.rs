//! Rendering numbers as text: decimal for messages, fixed-width lowercase
//! hexadecimal for identifiers.
use vstd::prelude::*;

use crate::chars::string_from_chars;

verus! {

/// The ASCII digit for `d` in base 16 (lowercase letters past nine).
pub open spec fn digit_char(d: nat) -> char {
    if d < 10 {
        ((48 + d) as u8) as char
    } else {
        ((97 + (d - 10)) as u8) as char
    }
}

/// The decimal representation of `n`, without leading zeros.
pub open spec fn decimal(n: nat) -> Seq<char>
    decreases n,
{
    if n < 10 {
        seq![digit_char(n)]
    } else {
        decimal(n / 10) + seq![digit_char(n % 10)]
    }
}

/// The last `width` hexadecimal digits of `n`, most significant first,
/// zero-padded.
pub open spec fn hex_padded(n: nat, width: nat) -> Seq<char>
    decreases width,
{
    if width == 0 {
        Seq::empty()
    } else {
        hex_padded(n / 16, (width - 1) as nat) + seq![digit_char(n % 16)]
    }
}

pub(crate) fn digit(d: u64) -> (c: char)
    requires
        d < 16,
    ensures
        c == digit_char(d as nat),
{
    if d < 10 {
        ((48 + d) as u8) as char
    } else {
        ((97 + (d - 10)) as u8) as char
    }
}

fn decimal_chars(n: u64) -> (r: Vec<char>)
    ensures
        r@ == decimal(n as nat),
    decreases n,
{
    if n < 10 {
        let mut r = Vec::new();
        r.push(digit(n));
        assert(r@ =~= seq![digit_char(n as nat)]);
        r
    } else {
        let mut r = decimal_chars(n / 10);
        r.push(digit(n % 10));
        r
    }
}

/// `n` in decimal.
pub fn decimal_string(n: u64) -> (s: String)
    ensures
        s@ == decimal(n as nat),
{
    let r = decimal_chars(n);
    string_from_chars(r.as_slice())
}

fn hex_chars(n: u128, width: u64) -> (r: Vec<char>)
    ensures
        r@ == hex_padded(n as nat, width as nat),
    decreases width,
{
    if width == 0 {
        Vec::new()
    } else {
        let mut r = hex_chars(n / 16, width - 1);
        r.push(digit((n % 16) as u64));
        r
    }
}

/// `n` as sixteen lowercase hexadecimal digits, zero-padded.
pub fn hex16(n: u64) -> (s: String)
    ensures
        s@ == hex_padded(n as nat, 16),
        s@.len() == 16,
{
    let r = hex_chars(n as u128, 16);
    proof {
        lemma_hex_len(n as nat, 16);
    }
    string_from_chars(r.as_slice())
}

/// An identifier written the way UUIDs are: thirty-two lowercase hexadecimal
/// digits in groups of 8, 4, 4, 4 and 12, joined by hyphens.
pub open spec fn uuid_text(n: u128) -> Seq<char> {
    let h = hex_padded(n as nat, 32);
    h.subrange(0, 8) + seq!['-'] + h.subrange(8, 12) + seq!['-'] + h.subrange(12, 16) + seq!['-']
        + h.subrange(16, 20) + seq!['-'] + h.subrange(20, 32)
}

/// `n` written the way UUIDs are.
pub fn uuid_string(n: u128) -> (s: String)
    ensures
        s@ == uuid_text(n),
{
    let h = hex_chars(n, 32);
    proof {
        lemma_hex_len(n as nat, 32);
    }
    let mut r: Vec<char> = Vec::new();
    push_range(&mut r, &h, 0, 8);
    r.push('-');
    push_range(&mut r, &h, 8, 12);
    r.push('-');
    push_range(&mut r, &h, 12, 16);
    r.push('-');
    push_range(&mut r, &h, 16, 20);
    r.push('-');
    push_range(&mut r, &h, 20, 32);
    assert(r@ =~= uuid_text(n));
    string_from_chars(r.as_slice())
}

/// Appends `h[from..to]` to `r`.
fn push_range(r: &mut Vec<char>, h: &Vec<char>, from: usize, to: usize)
    requires
        from <= to <= h@.len(),
    ensures
        final(r)@ == old(r)@ + h@.subrange(from as int, to as int),
{
    let ghost start = r@;
    let mut i = from;
    while i < to
        invariant
            from <= i <= to <= h@.len(),
            r@ == start + h@.subrange(from as int, i as int),
        decreases to - i,
    {
        r.push(h[i]);
        assert(h@.subrange(from as int, i + 1) =~= h@.subrange(from as int, i as int).push(h@[i as int]));
        i = i + 1;
    }
}

pub proof fn lemma_hex_len(n: nat, width: nat)
    ensures
        hex_padded(n, width).len() == width,
    decreases width,
{
    if width > 0 {
        lemma_hex_len(n / 16, (width - 1) as nat);
    }
}

/// Bytes in lowercase hexadecimal, two digits each, high nibble first.
pub open spec fn hex_bytes(b: Seq<u8>) -> Seq<char>
    decreases b.len(),
{
    if b.len() == 0 {
        Seq::empty()
    } else {
        hex_bytes(b.drop_last()) + hex_padded(b.last() as nat, 2)
    }
}

/// Whether `c` is a lowercase hexadecimal digit.
pub open spec fn is_lower_hex_digit(c: char) -> bool {
    ('0' <= c && c <= '9') || ('a' <= c && c <= 'f')
}

/// Two digits per byte, every one a lowercase hexadecimal digit.
pub proof fn lemma_hex_bytes_digits(b: Seq<u8>)
    ensures
        hex_bytes(b).len() == 2 * b.len(),
        forall|i: int| 0 <= i < hex_bytes(b).len() ==> is_lower_hex_digit(#[trigger] hex_bytes(b)[i]),
    decreases b.len(),
{
    if b.len() > 0 {
        lemma_hex_bytes_digits(b.drop_last());
        reveal_with_fuel(hex_padded, 3);
        let x = b.last() as nat;
        let pre = hex_bytes(b.drop_last());
        let tail = hex_padded(x, 2);
        assert(tail =~= seq![digit_char((x / 16) % 16), digit_char(x % 16)]);
        assert forall|i: int| 0 <= i < hex_bytes(b).len() implies is_lower_hex_digit(#[trigger] hex_bytes(b)[i]) by {
            if i < pre.len() {
                assert(hex_bytes(b)[i] == pre[i]);
            } else {
                let d: nat = if i == pre.len() { (x / 16) % 16 } else { x % 16 };
                assert(hex_bytes(b)[i] == digit_char(d));
                assert(d < 16);
            }
        }
    }
}

/// Bytes written in lowercase hexadecimal.
pub fn hex_bytes_string(b: &[u8]) -> (s: String)
    ensures
        s@ == hex_bytes(b@),
{
    let mut r: Vec<char> = Vec::new();
    let mut i: usize = 0;
    while i < b.len()
        invariant
            i <= b@.len(),
            r@ == hex_bytes(b@.take(i as int)),
        decreases b.len() - i,
    {
        let x = b[i];
        r.push(digit((x / 16) as u64));
        r.push(digit((x % 16) as u64));
        proof {
            reveal_with_fuel(hex_padded, 3);
            assert(b@.take(i + 1).drop_last() =~= b@.take(i as int));
            assert(hex_padded(x as nat, 2) =~= seq![digit_char(((x as nat) / 16) % 16), digit_char((x as nat) % 16)]);
            assert(r@ =~= hex_bytes(b@.take(i + 1)));
        }
        i = i + 1;
    }
    assert(b@.take(b@.len() as int) =~= b@);
    string_from_chars(r.as_slice())
}

} // verus!
