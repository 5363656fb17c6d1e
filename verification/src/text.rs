//! Numbers and hashes as text: decimal digits and lower-case hexadecimal.

use vstd::prelude::*;

verus! {

/// `String::push`: the character is appended.
pub assume_specification[ String::push ](s: &mut String, ch: char)
    ensures
        final(s)@ == old(s)@.push(ch),
;

/// The character of a digit below sixteen: `0` to `9`, then `a` to `f`.
pub open spec fn digit_char(d: int) -> char {
    if d == 0 {
        '0'
    } else if d == 1 {
        '1'
    } else if d == 2 {
        '2'
    } else if d == 3 {
        '3'
    } else if d == 4 {
        '4'
    } else if d == 5 {
        '5'
    } else if d == 6 {
        '6'
    } else if d == 7 {
        '7'
    } else if d == 8 {
        '8'
    } else if d == 9 {
        '9'
    } else if d == 10 {
        'a'
    } else if d == 11 {
        'b'
    } else if d == 12 {
        'c'
    } else if d == 13 {
        'd'
    } else if d == 14 {
        'e'
    } else {
        'f'
    }
}

/// The decimal digits of `n`, without leading zeros.
pub open spec fn decimal(n: nat) -> Seq<char>
    decreases n,
{
    if n < 10 {
        seq![digit_char(n as int)]
    } else {
        decimal(n / 10).push(digit_char((n % 10) as int))
    }
}

/// The two hexadecimal digits of each byte, in the order of the bytes.
pub open spec fn hex(bytes: Seq<u8>) -> Seq<char>
    decreases bytes.len(),
{
    if bytes.len() == 0 {
        Seq::empty()
    } else {
        hex(bytes.drop_last()).push(digit_char(bytes.last() as int / 16)).push(
            digit_char(bytes.last() as int % 16),
        )
    }
}

/// The bytes in the opposite order.
pub open spec fn reversed(bytes: Seq<u8>) -> Seq<u8> {
    Seq::new(bytes.len(), |i: int| bytes[bytes.len() - 1 - i])
}

fn digit(d: u8) -> (c: char)
    requires
        d < 16,
    ensures
        c == digit_char(d as int),
{
    if d == 0 {
        '0'
    } else if d == 1 {
        '1'
    } else if d == 2 {
        '2'
    } else if d == 3 {
        '3'
    } else if d == 4 {
        '4'
    } else if d == 5 {
        '5'
    } else if d == 6 {
        '6'
    } else if d == 7 {
        '7'
    } else if d == 8 {
        '8'
    } else if d == 9 {
        '9'
    } else if d == 10 {
        'a'
    } else if d == 11 {
        'b'
    } else if d == 12 {
        'c'
    } else if d == 13 {
        'd'
    } else if d == 14 {
        'e'
    } else {
        'f'
    }
}

/// Appends the decimal digits of `n` to `s`.
pub fn push_decimal(s: &mut String, n: u64)
    ensures
        final(s)@ == old(s)@ + decimal(n as nat),
    decreases n,
{
    if n >= 10 {
        push_decimal(s, n / 10);
    }
    s.push(digit((n % 10) as u8));
    assert(s@ =~= old(s)@ + decimal(n as nat));
}

/// Appends the hexadecimal digits of the bytes to `s`, last byte first.
pub fn push_hex_reversed(s: &mut String, bytes: &[u8; 32])
    ensures
        final(s)@ == old(s)@ + hex(reversed(bytes@)),
{
    let ghost rev = reversed(bytes@);
    let mut i: usize = 0;
    assert(rev.take(0) =~= Seq::<u8>::empty());
    while i < 32
        invariant
            i <= 32,
            rev == reversed(bytes@),
            rev.len() == 32,
            s@ == old(s)@ + hex(rev.take(i as int)),
        decreases 32 - i,
    {
        let b: u8 = bytes[31 - i];
        proof {
            assert(rev.take(i + 1).drop_last() =~= rev.take(i as int));
            assert(rev.take(i + 1).last() == b);
        }
        s.push(digit(b / 16));
        s.push(digit(b % 16));
        assert(s@ =~= old(s)@ + hex(rev.take(i + 1)));
        i += 1;
    }
    assert(rev.take(32) =~= rev);
}

} // verus!
