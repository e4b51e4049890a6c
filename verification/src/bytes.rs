//! Fixed-width integers as bytes, in either byte order.
use vstd::prelude::*;

verus! {

/// 256 to the power of `width`.
pub open spec fn pow256(width: nat) -> nat
    decreases width,
{
    if width == 0 {
        1
    } else {
        256 * pow256((width - 1) as nat)
    }
}

/// The low `width` bytes of `n`, the most significant first.
pub open spec fn be_bytes(n: nat, width: nat) -> Seq<u8>
    decreases width,
{
    if width == 0 {
        Seq::empty()
    } else {
        be_bytes(n / 256, (width - 1) as nat).push((n % 256) as u8)
    }
}

/// The low `width` bytes of `n`, the least significant first.
pub open spec fn le_bytes(n: nat, width: nat) -> Seq<u8>
    decreases width,
{
    if width == 0 {
        Seq::empty()
    } else {
        seq![(n % 256) as u8] + le_bytes(n / 256, (width - 1) as nat)
    }
}

/// The number whose bytes, the most significant first, are `s`.
pub open spec fn be_value(s: Seq<u8>) -> nat
    decreases s.len(),
{
    if s.len() == 0 {
        0
    } else {
        be_value(s.drop_last()) * 256 + s.last() as nat
    }
}

/// The number whose bytes, the least significant first, are `s`.
pub open spec fn le_value(s: Seq<u8>) -> nat
    decreases s.len(),
{
    if s.len() == 0 {
        0
    } else {
        s.first() as nat + 256 * le_value(s.drop_first())
    }
}

/// The bytes of a number, read back, give the number.
pub proof fn law_be_value_of_bytes(n: nat, width: nat)
    requires
        n < pow256(width),
    ensures
        be_bytes(n, width).len() == width,
        be_value(be_bytes(n, width)) == n,
    decreases width,
{
    if width > 0 {
        law_be_value_of_bytes(n / 256, (width - 1) as nat);
        assert(be_bytes(n, width).drop_last() == be_bytes(n / 256, (width - 1) as nat));
    }
}

/// The bytes of a number, read back, give the number.
pub proof fn law_le_value_of_bytes(n: nat, width: nat)
    requires
        n < pow256(width),
    ensures
        le_bytes(n, width).len() == width,
        le_value(le_bytes(n, width)) == n,
    decreases width,
{
    if width > 0 {
        law_le_value_of_bytes(n / 256, (width - 1) as nat);
        assert(le_bytes(n, width).drop_first() == le_bytes(n / 256, (width - 1) as nat));
    }
}

/// The number of bytes written is the width.
pub proof fn lemma_widths(n: nat, width: nat)
    ensures
        be_bytes(n, width).len() == width,
        le_bytes(n, width).len() == width,
    decreases width,
{
    if width > 0 {
        lemma_widths(n / 256, (width - 1) as nat);
    }
}

/// The numbers that fit in two, four and eight bytes.
pub proof fn lemma_pow256()
    ensures
        pow256(2) == 0x1_0000,
        pow256(4) == 0x1_0000_0000,
        pow256(8) == 0x1_0000_0000_0000_0000,
{
    reveal_with_fuel(pow256, 9);
}

/// Appends the low `width` bytes of `n`, the most significant first.
pub fn push_be(out: &mut Vec<u8>, n: u64, width: usize)
    ensures
        final(out)@ == old(out)@ + be_bytes(n as nat, width as nat),
    decreases width,
{
    if width > 0 {
        push_be(out, n / 256, width - 1);
        out.push((n % 256) as u8);
    }
}

/// Appends the low `width` bytes of `n`, the least significant first.
pub fn push_le(out: &mut Vec<u8>, n: u64, width: usize)
    ensures
        final(out)@ == old(out)@ + le_bytes(n as nat, width as nat),
    decreases width,
{
    if width > 0 {
        out.push((n % 256) as u8);
        push_le(out, n / 256, width - 1);
    }
}

/// The number in the four bytes at `at`, the least significant first.
pub fn read_le_u32(s: &[u8], at: usize) -> (r: u32)
    requires
        at + 4 <= s@.len(),
    ensures
        r == le_value(s@.subrange(at as int, at + 4)),
{
    proof {
        reveal_with_fuel(le_value, 5);
        let t = s@.subrange(at as int, at + 4);
        assert(t.drop_first().drop_first().drop_first().drop_first().len() == 0);
    }
    let b0: u32 = s[at] as u32;
    let b1: u32 = s[at + 1] as u32;
    let b2: u32 = s[at + 2] as u32;
    let b3: u32 = s[at + 3] as u32;
    b0 + 0x100 * b1 + 0x1_0000 * b2 + 0x100_0000 * b3
}

/// The number in the two bytes at `at`, the most significant first.
pub fn read_be_u16(s: &[u8], at: usize) -> (r: u16)
    requires
        at + 2 <= s@.len(),
    ensures
        r == be_value(s@.subrange(at as int, at + 2)),
{
    proof {
        reveal_with_fuel(be_value, 3);
        let t = s@.subrange(at as int, at + 2);
        assert(t.drop_last().drop_last().len() == 0);
    }
    (s[at] as u16) * 0x100 + s[at + 1] as u16
}

/// Appends `s`.
pub fn push_slice(out: &mut Vec<u8>, s: &[u8])
    ensures
        final(out)@ == old(out)@ + s@,
{
    out.extend_from_slice(s);
}

/// A copy of `s[from..to]`.
pub fn copy_range(s: &[u8], from: usize, to: usize) -> (r: Vec<u8>)
    requires
        from <= to <= s@.len(),
    ensures
        r@ == s@.subrange(from as int, to as int),
{
    let mut r: Vec<u8> = Vec::new();
    let mut i: usize = from;
    while i < to
        invariant
            from <= i <= to <= s@.len(),
            r@ == s@.subrange(from as int, i as int),
        decreases to - i,
    {
        r.push(s[i]);
        i = i + 1;
    }
    r
}

/// Two bytes, the most significant first: the high byte and the low one.
pub proof fn law_two_bytes(n: u16)
    ensures
        be_bytes(n as nat, 2) == seq![(n / 0x100) as u8, (n % 0x100) as u8],
{
    reveal_with_fuel(be_bytes, 3);
    assert(be_bytes(n as nat, 2) == seq![(n / 0x100) as u8, (n % 0x100) as u8]);
}

/// Four bytes, the least significant first.
pub proof fn law_four_bytes(n: u32)
    ensures
        le_bytes(n as nat, 4) == seq![
            (n % 0x100) as u8,
            (n / 0x100 % 0x100) as u8,
            (n / 0x1_0000 % 0x100) as u8,
            (n / 0x100_0000) as u8,
        ],
{
    reveal_with_fuel(le_bytes, 5);
    let m = n as nat;
    assert(m / 256 / 256 == m / 0x1_0000);
    assert(m / 256 / 256 / 256 == m / 0x100_0000);
    assert(le_bytes(m, 4) == seq![
        (n % 0x100) as u8,
        (n / 0x100 % 0x100) as u8,
        (n / 0x1_0000 % 0x100) as u8,
        (n / 0x100_0000) as u8,
    ]);
}

/// Eight bytes, the most significant first.
pub proof fn law_eight_bytes(n: u64)
    ensures
        be_bytes(n as nat, 8) == seq![
            (n / 0x100_0000_0000_0000) as u8,
            (n / 0x1_0000_0000_0000 % 0x100) as u8,
            (n / 0x100_0000_0000 % 0x100) as u8,
            (n / 0x1_0000_0000 % 0x100) as u8,
            (n / 0x100_0000 % 0x100) as u8,
            (n / 0x1_0000 % 0x100) as u8,
            (n / 0x100 % 0x100) as u8,
            (n % 0x100) as u8,
        ],
{
    reveal_with_fuel(be_bytes, 9);
    let m = n as nat;
    assert(m / 256 / 256 == m / 0x1_0000);
    assert(m / 256 / 256 / 256 == m / 0x100_0000);
    assert(m / 256 / 256 / 256 / 256 == m / 0x1_0000_0000);
    assert(m / 256 / 256 / 256 / 256 / 256 == m / 0x100_0000_0000);
    assert(m / 256 / 256 / 256 / 256 / 256 / 256 == m / 0x1_0000_0000_0000);
    assert(m / 256 / 256 / 256 / 256 / 256 / 256 / 256 == m / 0x100_0000_0000_0000);
    assert(be_bytes(m, 8) == seq![
        (n / 0x100_0000_0000_0000) as u8,
        (n / 0x1_0000_0000_0000 % 0x100) as u8,
        (n / 0x100_0000_0000 % 0x100) as u8,
        (n / 0x1_0000_0000 % 0x100) as u8,
        (n / 0x100_0000 % 0x100) as u8,
        (n / 0x1_0000 % 0x100) as u8,
        (n / 0x100 % 0x100) as u8,
        (n % 0x100) as u8,
    ]);
}

/// What two bytes stand for, the most significant first, and four, the least significant first.
pub proof fn law_value_of_bytes(a: u8, b: u8, c: u8, d: u8)
    ensures
        be_value(seq![a, b]) == 0x100 * a + b,
        le_value(seq![a, b, c, d]) == a + 0x100 * b + 0x1_0000 * c + 0x100_0000 * d,
{
    reveal_with_fuel(be_value, 3);
    reveal_with_fuel(le_value, 5);
    let s = seq![a, b];
    assert(s.drop_last() == seq![a]);
    assert(seq![a].drop_last() == Seq::<u8>::empty());
    let t = seq![a, b, c, d];
    assert(t.drop_first() == seq![b, c, d]);
    assert(seq![b, c, d].drop_first() == seq![c, d]);
    assert(seq![c, d].drop_first() == seq![d]);
    assert(seq![d].drop_first() == Seq::<u8>::empty());
}

} // verus!
