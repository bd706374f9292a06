//! Numbers written as text, for error messages.
use vstd::prelude::*;

verus! {

/// The digit for `d` in bases up to sixteen, upper case.
pub open spec fn digit_char(d: nat) -> char {
    if d == 0 {
        '0'
    } else if d == 1 {
        '1'
    } else if d == 2 {
        '2'
    } else if d == 3 {
        '3'
    } else if d == 4 {
        '4'
    } else if d == 5 {
        '5'
    } else if d == 6 {
        '6'
    } else if d == 7 {
        '7'
    } else if d == 8 {
        '8'
    } else if d == 9 {
        '9'
    } else if d == 10 {
        'A'
    } else if d == 11 {
        'B'
    } else if d == 12 {
        'C'
    } else if d == 13 {
        'D'
    } else if d == 14 {
        'E'
    } else {
        'F'
    }
}

/// `n` in upper-case hexadecimal, without leading zeros.
pub open spec fn hex_digits(n: nat) -> Seq<char>
    decreases n,
{
    if n < 16 {
        seq![digit_char(n)]
    } else {
        hex_digits(n / 16).push(digit_char(n % 16))
    }
}

/// `n` in decimal, without leading zeros.
pub open spec fn dec_digits(n: nat) -> Seq<char>
    decreases n,
{
    if n < 10 {
        seq![digit_char(n)]
    } else {
        dec_digits(n / 10).push(digit_char(n % 10))
    }
}

/// `n` in upper-case hexadecimal, padded with zeros to at least four digits.
pub open spec fn hex4(n: nat) -> Seq<char> {
    let h = hex_digits(n);
    if h.len() >= 4 {
        h
    } else {
        Seq::new((4 - h.len()) as nat, |i: int| '0') + h
    }
}

fn digit(d: u32) -> (r: char)
    requires
        d < 16,
    ensures
        r == digit_char(d as nat),
{
    if d == 0 {
        '0'
    } else if d == 1 {
        '1'
    } else if d == 2 {
        '2'
    } else if d == 3 {
        '3'
    } else if d == 4 {
        '4'
    } else if d == 5 {
        '5'
    } else if d == 6 {
        '6'
    } else if d == 7 {
        '7'
    } else if d == 8 {
        '8'
    } else if d == 9 {
        '9'
    } else if d == 10 {
        'A'
    } else if d == 11 {
        'B'
    } else if d == 12 {
        'C'
    } else if d == 13 {
        'D'
    } else if d == 14 {
        'E'
    } else {
        'F'
    }
}

/// Appends `n` in upper-case hexadecimal.
pub fn push_hex(out: &mut String, n: u64)
    ensures
        final(out)@ == old(out)@ + hex_digits(n as nat),
    decreases n,
{
    if n < 16 {
        crate::chars::push_char(out, digit(n as u32));
        assert(hex_digits(n as nat) =~= seq![digit_char(n as nat)]);
    } else {
        push_hex(out, n / 16);
        crate::chars::push_char(out, digit((n % 16) as u32));
        assert(old(out)@ + hex_digits(n as nat) =~= old(out)@ + hex_digits((n / 16) as nat)
            + seq![digit_char((n % 16) as nat)]);
    }
}

/// Appends `n` in decimal.
pub fn push_dec(out: &mut String, n: u64)
    ensures
        final(out)@ == old(out)@ + dec_digits(n as nat),
    decreases n,
{
    if n < 10 {
        crate::chars::push_char(out, digit(n as u32));
        assert(dec_digits(n as nat) =~= seq![digit_char(n as nat)]);
    } else {
        push_dec(out, n / 10);
        crate::chars::push_char(out, digit((n % 10) as u32));
        assert(old(out)@ + dec_digits(n as nat) =~= old(out)@ + dec_digits((n / 10) as nat)
            + seq![digit_char((n % 10) as nat)]);
    }
}

/// Appends `n` in upper-case hexadecimal, padded with zeros to four digits.
pub fn push_hex4(out: &mut String, n: u32)
    ensures
        final(out)@ == old(out)@ + hex4(n as nat),
{
    let mut pad: usize = 0;
    if n < 0x10 {
        pad = 3;
    } else if n < 0x100 {
        pad = 2;
    } else if n < 0x1000 {
        pad = 1;
    }
    proof {
        lemma_hex_len(n as nat);
    }
    let ghost start = out@;
    let mut k: usize = 0;
    while k < pad
        invariant
            k <= pad,
            out@ == start + Seq::new(k as nat, |i: int| '0'),
        decreases pad - k,
    {
        crate::chars::push_char(out, '0');
        k = k + 1;
        assert(out@ =~= start + Seq::new(k as nat, |i: int| '0'));
    }
    push_hex(out, n as u64);
    proof {
        let h = hex_digits(n as nat);
        if h.len() >= 4 {
            assert(out@ =~= start + hex4(n as nat));
        } else {
            assert(out@ =~= start + hex4(n as nat));
        }
    }
}

proof fn lemma_hex_len(n: nat)
    ensures
        n < 0x10 ==> hex_digits(n).len() == 1,
        0x10 <= n < 0x100 ==> hex_digits(n).len() == 2,
        0x100 <= n < 0x1000 ==> hex_digits(n).len() == 3,
        0x1000 <= n ==> hex_digits(n).len() >= 4,
    decreases n,
{
    if n >= 16 {
        lemma_hex_len(n / 16);
    }
}

} // verus!
