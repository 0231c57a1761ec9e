//! Little-endian byte strings: what they mean and how they are written and
//! read back.
use vstd::prelude::*;

verus! {

/// The `width` low-order bytes of `n`, least significant first.
pub open spec fn le(n: nat, width: nat) -> Seq<u8>
    decreases width,
{
    if width == 0 {
        Seq::empty()
    } else {
        seq![(n % 256) as u8] + le(n / 256, (width - 1) as nat)
    }
}

/// The number that a little-endian byte string stands for.
pub open spec fn le_value(s: Seq<u8>) -> nat
    decreases s.len(),
{
    if s.len() == 0 {
        0
    } else {
        s[0] as nat + 256 * le_value(s.drop_first())
    }
}

/// 256 to the power `width`.
pub open spec fn pow256(width: nat) -> nat
    decreases width,
{
    if width == 0 {
        1
    } else {
        256 * pow256((width - 1) as nat)
    }
}

pub proof fn lemma_pow256()
    ensures
        pow256(1) == 0x100,
        pow256(2) == 0x1_0000,
        pow256(4) == 0x1_0000_0000,
        pow256(8) == 0x1_0000_0000_0000_0000,
{
    reveal_with_fuel(pow256, 9);
}

/// A byte string of `width` bytes has exactly `width` bytes.
pub broadcast proof fn lemma_le_len(n: nat, width: nat)
    ensures
        #[trigger] le(n, width).len() == width,
    decreases width,
{
    if width > 0 {
        lemma_le_len(n / 256, (width - 1) as nat);
    }
}

/// Reading back a number that fits gives the number.
pub proof fn lemma_le_value_of_le(n: nat, width: nat)
    requires
        n < pow256(width),
    ensures
        le_value(le(n, width)) == n,
        le(n, width).len() == width,
    decreases width,
{
    if width > 0 {
        lemma_le_value_of_le(n / 256, (width - 1) as nat);
        let s = le(n, width);
        assert(s.drop_first() =~= le(n / 256, (width - 1) as nat));
        assert(s[0] == (n % 256) as u8);
    }
}

/// Writing out the number that a byte string stands for gives the byte
/// string.
pub proof fn lemma_le_of_le_value(s: Seq<u8>)
    ensures
        le(le_value(s), s.len()) == s,
        le_value(s) < pow256(s.len()),
    decreases s.len(),
{
    if s.len() > 0 {
        let rest = s.drop_first();
        lemma_le_of_le_value(rest);
        assert(le_value(s) % 256 == s[0] as nat);
        assert(le_value(s) / 256 == le_value(rest));
        assert(seq![s[0]] + rest =~= s);
    } else {
        assert(le(le_value(s), s.len()) =~= s);
    }
}

/// The low-order bytes do not see a multiple of 256 to their number.
pub proof fn lemma_le_low(n: nat, k: nat, width: nat)
    ensures
        le(n + k * pow256(width), width) == le(n, width),
    decreases width,
{
    if width > 0 {
        let p = pow256((width - 1) as nat);
        let q = k * p;
        assert(k * (256 * p) == 256 * (k * p)) by (nonlinear_arith);
        assert((n + 256 * q) % 256 == n % 256);
        assert((n + 256 * q) / 256 == n / 256 + q);
        lemma_le_low(n / 256, k, (width - 1) as nat);
    }
}

/// Appends the `width` low-order bytes of `n`.
pub fn push_le(buf: &mut Vec<u8>, n: u64, width: usize)
    ensures
        final(buf)@ == old(buf)@ + le(n as nat, width as nat),
{
    let mut rest: u64 = n;
    let mut done: usize = 0;
    assert(buf@ + le(rest as nat, width as nat) =~= old(buf)@ + le(n as nat, width as nat));
    while done < width
        invariant
            done <= width,
            buf@ + le(rest as nat, (width - done) as nat) == old(buf)@ + le(
                n as nat,
                width as nat,
            ),
        decreases width - done,
    {
        let ghost before = buf@;
        let ghost tail = le(rest as nat / 256, (width - done - 1) as nat);
        buf.push((rest % 256) as u8);
        assert(before + (seq![(rest as nat % 256) as u8] + tail) =~= buf@ + tail);
        rest = rest / 256;
        done = done + 1;
    }
    assert(buf@ + le(rest as nat, 0) =~= buf@);
}

/// Reads `width` bytes at `pos`.
pub fn read_le(bytes: &[u8], pos: usize, width: usize) -> (n: u64)
    requires
        width <= 8,
        pos + width <= bytes@.len(),
    ensures
        n as nat == le_value(bytes@.subrange(pos as int, pos + width)),
        n < pow256(width as nat),
{
    let mut acc: u64 = 0;
    let mut left: usize = width;
    let total: usize = bytes.len();
    proof {
        lemma_pow256();
        assert(bytes@.subrange(pos + width, pos + width) =~= Seq::<u8>::empty());
    }
    while left > 0
        invariant
            left <= width <= 8,
            pos + width <= total == bytes@.len(),
            acc as nat == le_value(bytes@.subrange(pos + left, pos + width)),
        decreases left,
    {
        left = left - 1;
        let b: u8 = bytes[pos + left];
        proof {
            let s = bytes@.subrange(pos + left, pos + width);
            assert(s.drop_first() =~= bytes@.subrange(pos + left + 1, pos + width));
            lemma_le_of_le_value(s);
            lemma_pow256_mono(s.len(), 8);
            lemma_pow256();
        }
        acc = acc * 256 + b as u64;
    }
    proof {
        lemma_le_of_le_value(bytes@.subrange(pos as int, pos + width));
    }
    acc
}

pub proof fn lemma_pow256_mono(a: nat, b: nat)
    requires
        a <= b,
    ensures
        pow256(a) <= pow256(b),
        pow256(a) >= 1,
    decreases b,
{
    if a < b {
        lemma_pow256_mono(a, (b - 1) as nat);
    } else if a > 0 {
        lemma_pow256_mono((a - 1) as nat, (a - 1) as nat);
    }
}

/// A copy of the bytes in `[from, to)`.
pub fn copy_range(bytes: &[u8], from: usize, to: usize) -> (out: Vec<u8>)
    requires
        from <= to <= bytes@.len(),
    ensures
        out@ == bytes@.subrange(from as int, to as int),
{
    let mut out: Vec<u8> = Vec::new();
    let mut i: usize = from;
    while i < to
        invariant
            from <= i <= to <= bytes@.len(),
            out@ == bytes@.subrange(from as int, i as int),
        decreases to - i,
    {
        out.push(bytes[i]);
        i = i + 1;
        assert(bytes@.subrange(from as int, i as int) =~= bytes@.subrange(
            from as int,
            i - 1,
        ).push(bytes@[i - 1]));
    }
    out
}

/// Appends a byte string.
pub fn push_all(buf: &mut Vec<u8>, v: &[u8])
    ensures
        final(buf)@ == old(buf)@ + v@,
{
    let mut i: usize = 0;
    assert(buf@ =~= old(buf)@ + v@.subrange(0, 0));
    while i < v.len()
        invariant
            i <= v@.len(),
            buf@ == old(buf)@ + v@.subrange(0, i as int),
        decreases v@.len() - i,
    {
        buf.push(v[i]);
        i = i + 1;
        assert(old(buf)@ + v@.subrange(0, i as int) =~= (old(buf)@ + v@.subrange(0, i - 1)).push(
            v@[i - 1],
        ));
    }
    assert(v@.subrange(0, v@.len() as int) =~= v@);
}

} // verus!
