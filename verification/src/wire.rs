//! Unsigned numbers as bytes, in little-endian and big-endian order.

use vstd::prelude::*;

verus! {

/// `n` as `width` bytes, lowest first; what does not fit is cut off.
pub open spec fn le(n: nat, width: nat) -> Seq<u8>
    decreases width,
{
    if width == 0 {
        seq![]
    } else {
        seq![(n % 256) as u8] + le(n / 256, (width - 1) as nat)
    }
}

/// The number that bytes write, lowest first.
pub open spec fn le_value(b: Seq<u8>) -> nat
    decreases b.len(),
{
    if b.len() == 0 {
        0
    } else {
        b[0] as nat + 256 * le_value(b.drop_first())
    }
}

/// The number of values that `width` bytes can write.
pub open spec fn span(width: nat) -> nat
    decreases width,
{
    if width == 0 {
        1
    } else {
        256 * span((width - 1) as nat)
    }
}

/// A number keeps its value through its bytes, when they suffice for it.
pub proof fn law_le_reads_back(n: nat, width: nat)
    requires
        n < span(width),
    ensures
        le_value(le(n, width)) == n,
    decreases width,
{
    lemma_le_len(n, width);
    if width > 0 {
        let rest = le(n / 256, (width - 1) as nat);
        law_le_reads_back(n / 256, (width - 1) as nat);
        assert(le(n, width).drop_first() =~= rest);
    }
}

/// Bytes are kept through the number that they write.
pub proof fn law_le_writes_back(b: Seq<u8>)
    ensures
        le(le_value(b), b.len()) == b,
        le_value(b) < span(b.len()),
    decreases b.len(),
{
    if b.len() == 0 {
        assert(le(0, 0) =~= b);
    } else {
        let v = le_value(b);
        let t = le_value(b.drop_first());
        law_le_writes_back(b.drop_first());
        assert(v % 256 == b[0] as nat && v / 256 == t);
        assert(seq![b[0]] + b.drop_first() =~= b);
    }
}

/// As many bytes are written as asked for.
pub proof fn lemma_le_len(n: nat, width: nat)
    ensures
        le(n, width).len() == width,
    decreases width,
{
    if width > 0 {
        lemma_le_len(n / 256, (width - 1) as nat);
    }
}

/// The spans of the machine's integer types.
pub proof fn lemma_spans()
    ensures
        span(1) == 0x100,
        span(2) == 0x1_0000,
        span(4) == 0x1_0000_0000,
        span(8) == 0x1_0000_0000_0000_0000,
{
    reveal_with_fuel(span, 9);
}

/// Appends `n` as `width` bytes, lowest first.
pub fn push_le(out: &mut Vec<u8>, n: u64, width: usize)
    ensures
        final(out)@ == old(out)@ + le(n as nat, width as nat),
{
    let mut left: usize = width;
    let mut v: u64 = n;
    proof {
        assert(out@ + le(n as nat, width as nat) =~= old(out)@ + le(n as nat, width as nat));
    }
    while left > 0
        invariant
            out@ + le(v as nat, left as nat) == old(out)@ + le(n as nat, width as nat),
        decreases left,
    {
        let ghost before = out@;
        out.push((v % 256) as u8);
        assert(out@ + le((v / 256) as nat, (left - 1) as nat) =~= before + (seq![(v % 256) as u8]
            + le((v / 256) as nat, (left - 1) as nat)));
        v = v / 256;
        left = left - 1;
    }
    assert(out@ + le(v as nat, 0) =~= out@);
}

/// The number that `width` bytes of `b` at `at` write, lowest first.
pub fn read_le(b: &[u8], at: usize, width: usize) -> (r: u64)
    requires
        at + width <= b@.len(),
        width <= 8,
    ensures
        r == le_value(b@.subrange(at as int, at + width)),
        r < span(width as nat),
    decreases width,
{
    proof {
        law_le_writes_back(b@.subrange(at as int, at + width));
        lemma_spans();
    }
    if width == 0 {
        0
    } else {
        let ghost s = b@.subrange(at as int, at + width);
        assert(s.drop_first() =~= b@.subrange(at + 1, at + width));
        proof {
            law_le_writes_back(s.drop_first());
            lemma_span_grows(width as nat);
        }
        let n: usize = b.len();
        assert(at + 1 <= n);
        let rest = read_le(b, at + 1, width - 1);
        b[at] as u64 + 256 * rest
    }
}

proof fn lemma_span_grows(width: nat)
    requires
        width <= 8,
    ensures
        span(width) <= 0x1_0000_0000_0000_0000,
{
    reveal_with_fuel(span, 9);
}

/// `n` as two bytes, highest first.
pub open spec fn be16(n: int) -> Seq<u8> {
    seq![(n / 256) as u8, (n % 256) as u8]
}

/// Appends `n` as two bytes, highest first.
pub fn push_be16(out: &mut Vec<u8>, n: u16)
    ensures
        final(out)@ == old(out)@ + be16(n as int),
{
    out.push((n / 256) as u8);
    out.push((n % 256) as u8);
    assert(out@ =~= old(out)@ + be16(n as int));
}

/// The number that two bytes write, highest first.
pub fn read_be16(hi: u8, lo: u8) -> (r: u16)
    ensures
        r == hi as int * 256 + lo as int,
{
    hi as u16 * 256 + lo as u16
}

} // verus!
