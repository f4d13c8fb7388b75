//! The JSON text this library writes: strings, unsigned integers, lists and
//! comma-separated members, each with its writer.
use vstd::prelude::*;

verus! {

/// The lowercase hexadecimal digit of `n < 16`.
pub open spec fn hex_digit(n: u8) -> u8 {
    if n < 10 {
        (48 + n) as u8
    } else {
        (87 + n) as u8
    }
}

/// How one byte of a string is written between the quotes.
pub open spec fn esc_byte(c: u8) -> Seq<u8> {
    if c == 34 {
        seq![92u8, 34u8]
    } else if c == 92 {
        seq![92u8, 92u8]
    } else if c < 32 {
        seq![92u8, 117u8, 48u8, 48u8, hex_digit(c / 16), hex_digit(c % 16)]
    } else {
        seq![c]
    }
}

/// The bytes of `s` escaped one by one.
pub open spec fn escaped(s: Seq<u8>) -> Seq<u8>
    decreases s.len(),
{
    if s.len() == 0 {
        Seq::empty()
    } else {
        escaped(s.drop_last()) + esc_byte(s.last())
    }
}

/// A JSON string holding the bytes `s`.
pub open spec fn enc_str(s: Seq<u8>) -> Seq<u8> {
    seq![34u8] + escaped(s) + seq![34u8]
}

/// The decimal digits of `n`, without leading zeros.
pub open spec fn digits(n: nat) -> Seq<u8>
    decreases n,
{
    if n < 10 {
        seq![(48 + n) as u8]
    } else {
        digits(n / 10) + seq![(48 + n % 10) as u8]
    }
}

/// The parts `items` separated by commas.
pub open spec fn join(items: Seq<Seq<u8>>) -> Seq<u8>
    decreases items.len(),
{
    if items.len() == 0 {
        Seq::empty()
    } else if items.len() == 1 {
        items[0]
    } else {
        join(items.drop_last()) + seq![44u8] + items.last()
    }
}

/// A JSON list of unsigned integers.
pub open spec fn enc_list(s: Seq<usize>) -> Seq<u8> {
    seq![91u8] + join(s.map_values(|n: usize| digits(n as nat))) + seq![93u8]
}

/// Appends the digits of `n`.
pub fn write_uint(out: &mut Vec<u8>, n: usize)
    ensures
        final(out)@ == old(out)@ + digits(n as nat),
    decreases n,
{
    if n >= 10 {
        write_uint(out, n / 10);
    }
    let d: u8 = (n % 10) as u8;
    out.push(48u8 + d);
    assert(final(out)@ =~= old(out)@ + digits(n as nat));
}

/// Appends a JSON string holding the bytes `s`.
pub fn write_str(out: &mut Vec<u8>, s: &[u8])
    ensures
        final(out)@ == old(out)@ + enc_str(s@),
{
    out.push(34u8);
    let mut i: usize = 0;
    assert(s@.subrange(0, 0) =~= Seq::<u8>::empty());
    while i < s.len()
        invariant
            i <= s@.len(),
            out@ == old(out)@ + seq![34u8] + escaped(s@.subrange(0, i as int)),
        decreases s@.len() - i,
    {
        let c = s[i];
        assert(s@.subrange(0, i + 1).drop_last() =~= s@.subrange(0, i as int));
        if c == 34 {
            out.push(92u8);
            out.push(34u8);
        } else if c == 92 {
            out.push(92u8);
            out.push(92u8);
        } else if c < 32 {
            out.push(92u8);
            out.push(117u8);
            out.push(48u8);
            out.push(48u8);
            let hi = c / 16;
            let lo = c % 16;
            out.push(if hi < 10 { 48 + hi } else { 87 + hi });
            out.push(if lo < 10 { 48 + lo } else { 87 + lo });
        } else {
            out.push(c);
        }
        i = i + 1;
        assert(out@ =~= old(out)@ + seq![34u8] + escaped(s@.subrange(0, i as int)));
    }
    out.push(34u8);
    assert(s@.subrange(0, i as int) =~= s@);
    assert(out@ =~= old(out)@ + enc_str(s@));
}

/// Appends a JSON list of the integers `s`.
pub fn write_list(out: &mut Vec<u8>, s: &[usize])
    ensures
        final(out)@ == old(out)@ + enc_list(s@),
{
    let ghost f = |n: usize| digits(n as nat);
    out.push(91u8);
    let mut i: usize = 0;
    assert(s@.subrange(0, 0).map_values(f) =~= Seq::<Seq<u8>>::empty());
    while i < s.len()
        invariant
            i <= s@.len(),
            f == (|n: usize| digits(n as nat)),
            out@ == old(out)@ + seq![91u8] + join(s@.subrange(0, i as int).map_values(f)),
        decreases s@.len() - i,
    {
        let ghost items = s@.subrange(0, i + 1).map_values(f);
        assert(items.drop_last() =~= s@.subrange(0, i as int).map_values(f));
        assert(items.last() == digits(s@[i as int] as nat));
        if i > 0 {
            out.push(44u8);
        }
        write_uint(out, s[i]);
        i = i + 1;
        assert(out@ =~= old(out)@ + seq![91u8] + join(s@.subrange(0, i as int).map_values(f)));
    }
    out.push(93u8);
    assert(s@.subrange(0, i as int) =~= s@);
    assert(out@ =~= old(out)@ + enc_list(s@));
}

/// Appends raw bytes.
pub fn write_bytes(out: &mut Vec<u8>, s: &[u8])
    ensures
        final(out)@ == old(out)@ + s@,
{
    let mut i: usize = 0;
    while i < s.len()
        invariant
            i <= s@.len(),
            out@ == old(out)@ + s@.subrange(0, i as int),
        decreases s@.len() - i,
    {
        out.push(s[i]);
        i = i + 1;
        assert(out@ =~= old(out)@ + s@.subrange(0, i as int));
    }
    assert(s@.subrange(0, i as int) =~= s@);
}

} // verus!
