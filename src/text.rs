//! Decimal, hexadecimal and binary rendering of integers.
use vstd::prelude::*;

verus! {

pub open spec fn digit_char(d: nat) -> char {
    if d == 0 { '0' } else if d == 1 { '1' } else if d == 2 { '2' } else if d == 3 { '3' }
    else if d == 4 { '4' } else if d == 5 { '5' } else if d == 6 { '6' } else if d == 7 { '7' }
    else if d == 8 { '8' } else if d == 9 { '9' } else if d == 10 { 'a' } else if d == 11 { 'b' }
    else if d == 12 { 'c' } else if d == 13 { 'd' } else if d == 14 { 'e' } else { 'f' }
}

/// A supported radix: 2, 10 or 16.
pub open spec fn radix(base: nat) -> bool {
    base == 2 || base == 10 || base == 16
}

/// The digits of `n` in `base`, most significant first, without leading zeros.
pub open spec fn digits(n: nat, base: nat) -> Seq<char>
    recommends
        radix(base),
    decreases n,
{
    if !radix(base) || n < base {
        seq![digit_char(n % 16)]
    } else if base == 2 {
        digits(n / 2, base).push(digit_char(n % 2))
    } else if base == 10 {
        digits(n / 10, base).push(digit_char(n % 10))
    } else {
        digits(n / 16, base).push(digit_char(n % 16))
    }
}

/// Signed decimal text.
pub open spec fn decimal(n: int) -> Seq<char> {
    if n < 0 {
        seq!['-'] + digits((-n) as nat, 10)
    } else {
        digits(n as nat, 10)
    }
}

/// `n` as four hexadecimal digits with a `0x` prefix.
pub open spec fn hex4(n: nat) -> Seq<char> {
    seq!['0', 'x', digit_char((n / 4096) % 16), digit_char((n / 256) % 16), digit_char((n / 16) % 16), digit_char(n % 16)]
}

fn digit_str(d: u64) -> (r: &'static str)
    requires
        d < 16,
    ensures
        r@ == seq![digit_char(d as nat)],
{
    match d {
        0 => { proof { reveal_strlit("0"); } "0" },
        1 => { proof { reveal_strlit("1"); } "1" },
        2 => { proof { reveal_strlit("2"); } "2" },
        3 => { proof { reveal_strlit("3"); } "3" },
        4 => { proof { reveal_strlit("4"); } "4" },
        5 => { proof { reveal_strlit("5"); } "5" },
        6 => { proof { reveal_strlit("6"); } "6" },
        7 => { proof { reveal_strlit("7"); } "7" },
        8 => { proof { reveal_strlit("8"); } "8" },
        9 => { proof { reveal_strlit("9"); } "9" },
        10 => { proof { reveal_strlit("a"); } "a" },
        11 => { proof { reveal_strlit("b"); } "b" },
        12 => { proof { reveal_strlit("c"); } "c" },
        13 => { proof { reveal_strlit("d"); } "d" },
        14 => { proof { reveal_strlit("e"); } "e" },
        _ => { proof { reveal_strlit("f"); } "f" },
    }
}

/// Appends the digits of `n` in `base` to `s`.
pub fn push_digits(s: &mut String, n: u64, base: u64)
    requires
        radix(base as nat),
    ensures
        final(s)@ == old(s)@ + digits(n as nat, base as nat),
    decreases n,
{
    if n < base {
        s.append(digit_str(n));
    } else {
        let q: u64 = if base == 2 { n / 2 } else if base == 10 { n / 10 } else { n / 16 };
        push_digits(s, q, base);
        s.append(digit_str(n % base));
        assert(s@ =~= old(s)@ + digits(n as nat, base as nat));
    }
}

/// Appends `n` in signed decimal to `s`.
pub fn push_decimal(s: &mut String, n: i64)
    ensures
        final(s)@ == old(s)@ + decimal(n as int),
{
    if n < 0 {
        proof { reveal_strlit("-"); }
        s.append("-");
        let m: u64 = if n == i64::MIN { 0x8000_0000_0000_0000u64 } else { (-n) as u64 };
        push_digits(s, m, 10);
        assert(s@ =~= old(s)@ + decimal(n as int));
    } else {
        push_digits(s, n as u64, 10);
    }
}

/// Appends `n` as `0x` and four hexadecimal digits.
pub fn push_hex4(s: &mut String, n: u16)
    ensures
        final(s)@ == old(s)@ + hex4(n as nat),
{
    proof { reveal_strlit("0x"); }
    s.append("0x");
    s.append(digit_str((n as u64 / 4096) % 16));
    s.append(digit_str((n as u64 / 256) % 16));
    s.append(digit_str((n as u64 / 16) % 16));
    s.append(digit_str(n as u64 % 16));
    assert(s@ =~= old(s)@ + hex4(n as nat));
}

/// The binary digits of a byte, without leading zeros.
pub fn binary_text(b: u8) -> (r: String)
    ensures
        r@ == digits(b as nat, 2),
{
    let mut s = String::new();
    push_digits(&mut s, b as u64, 2);
    assert(s@ =~= digits(b as nat, 2));
    s
}

} // verus!
