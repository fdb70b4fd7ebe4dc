//! Byte sequences: equality, copying and little-endian integers.

use vstd::prelude::*;

verus! {

/// The number that `s` stands for, least significant byte first.
pub open spec fn le_value(s: Seq<u8>) -> nat
    decreases s.len(),
{
    if s.len() == 0 {
        0
    } else {
        s[0] as nat + 256 * le_value(s.skip(1))
    }
}

/// The `width` low bytes of `x`, least significant byte first.
pub open spec fn le_bytes(x: nat, width: nat) -> Seq<u8>
    decreases width,
{
    if width == 0 {
        Seq::empty()
    } else {
        seq![(x % 256) as u8] + le_bytes(x / 256, (width - 1) as nat)
    }
}

/// `256` to the power of `width`.
pub open spec fn pow256(width: nat) -> nat
    decreases width,
{
    if width == 0 {
        1
    } else {
        256 * pow256((width - 1) as nat)
    }
}

pub proof fn lemma_le_bytes_len(x: nat, width: nat)
    ensures
        le_bytes(x, width).len() == width,
    decreases width,
{
    if width > 0 {
        lemma_le_bytes_len(x / 256, (width - 1) as nat);
    }
}

pub proof fn lemma_le_value_bound(s: Seq<u8>)
    ensures
        le_value(s) < pow256(s.len()),
    decreases s.len(),
{
    if s.len() > 0 {
        lemma_le_value_bound(s.skip(1));
    }
}

/// Reading back what was written gives the number, as far as it fits.
pub proof fn lemma_le_value_of_bytes(x: nat, width: nat)
    requires
        x < pow256(width),
    ensures
        le_value(le_bytes(x, width)) == x,
    decreases width,
{
    if width > 0 {
        lemma_le_bytes_len(x / 256, (width - 1) as nat);
        lemma_le_value_of_bytes(x / 256, (width - 1) as nat);
        let tail = le_bytes(x / 256, (width - 1) as nat);
        assert(le_bytes(x, width).skip(1) =~= tail);
        assert(((x % 256) as u8) as nat == x % 256);
    }
}

/// Writing what was read gives the bytes back.
pub proof fn lemma_le_bytes_of_value(s: Seq<u8>)
    ensures
        le_bytes(le_value(s), s.len()) == s,
    decreases s.len(),
{
    if s.len() > 0 {
        lemma_le_bytes_of_value(s.skip(1));
        let v = le_value(s);
        assert(v % 256 == s[0] as nat);
        assert(v / 256 == le_value(s.skip(1)));
        assert((v % 256) as u8 == s[0]);
        assert(le_bytes(v, s.len()) =~= seq![s[0]] + s.skip(1));
        assert(seq![s[0]] + s.skip(1) =~= s);
    }
}

pub proof fn lemma_pow256_values()
    ensures
        pow256(1) == 0x100,
        pow256(2) == 0x1_0000,
        pow256(4) == 0x1_0000_0000,
        pow256(8) == 0x1_0000_0000_0000_0000,
{
    reveal_with_fuel(pow256, 9);
}

/// Appends the `width` low bytes of `x` to `buf`, least significant first.
pub fn push_le(buf: &mut Vec<u8>, x: u64, width: usize)
    ensures
        final(buf)@ == old(buf)@ + le_bytes(x as nat, width as nat),
{
    let mut rest: u64 = x;
    let mut left: usize = width;
    proof {
        assert(old(buf)@ + le_bytes(x as nat, width as nat) == buf@ + le_bytes(rest as nat, left as nat));
    }
    while left > 0
        invariant
            old(buf)@ + le_bytes(x as nat, width as nat) == buf@ + le_bytes(rest as nat, left as nat),
        decreases left,
    {
        let ghost before = buf@;
        let low: u8 = (rest % 256) as u8;
        buf.push(low);
        proof {
            let tail = le_bytes(rest as nat / 256, (left - 1) as nat);
            assert(before + le_bytes(rest as nat, left as nat) =~= buf@ + tail);
        }
        rest = rest / 256;
        left = left - 1;
    }
    assert(buf@ + le_bytes(rest as nat, 0) =~= buf@);
}

/// Reads the integer of `width` bytes that starts at `pos`.
pub fn read_le(data: &[u8], pos: usize, width: usize) -> (x: u64)
    requires
        width <= 8,
        pos + width <= data@.len(),
    ensures
        x as nat == le_value(data@.subrange(pos as int, pos + width)),
{
    let len: usize = data.len();
    let mut x: u64 = 0;
    let mut left: usize = width;
    proof {
        assert(data@.subrange(pos + left, pos + width) =~= Seq::<u8>::empty());
    }
    while left > 0
        invariant
            left <= width <= 8,
            pos + width <= len,
            len == data@.len(),
            x as nat == le_value(data@.subrange(pos + left, pos + width)),
        decreases left,
    {
        proof {
            let tail = data@.subrange(pos + left, pos + width);
            let whole = data@.subrange(pos + left - 1, pos + width);
            lemma_le_value_bound(tail);
            reveal_with_fuel(pow256, 9);
            assert(whole.skip(1) =~= tail);
            assert(whole[0] == data@[pos + left - 1]);
        }
        left = left - 1;
        x = x * 256 + data[pos + left] as u64;
    }
    x
}

/// Whether two byte sequences are equal.
pub fn bytes_eq(a: &[u8], b: &[u8]) -> (r: bool)
    ensures
        r == (a@ == b@),
{
    if a.len() != b.len() {
        return false;
    }
    let mut i: usize = 0;
    while i < a.len()
        invariant
            i <= a@.len(),
            a@.len() == b@.len(),
            forall|j: int| 0 <= j < i ==> a@[j] == b@[j],
        decreases a@.len() - i,
    {
        if a[i] != b[i] {
            return false;
        }
        i = i + 1;
    }
    assert(a@ =~= b@);
    true
}

/// A copy of `data[from..to]`.
pub fn copy_range(data: &[u8], from: usize, to: usize) -> (out: Vec<u8>)
    requires
        from <= to <= data@.len(),
    ensures
        out@ == data@.subrange(from as int, to as int),
{
    let mut out: Vec<u8> = Vec::new();
    let mut i: usize = from;
    while i < to
        invariant
            from <= i <= to <= data@.len(),
            out@ == data@.subrange(from as int, i as int),
        decreases to - i,
    {
        out.push(data[i]);
        i = i + 1;
        assert(data@.subrange(from as int, i as int).drop_last() =~= data@.subrange(from as int, i - 1));
        assert(out@ =~= data@.subrange(from as int, i as int));
    }
    out
}

/// The 32 bytes of `data` that start at `pos`.
pub fn read_array32(data: &[u8], pos: usize) -> (out: [u8; 32])
    requires
        pos + 32 <= data@.len(),
    ensures
        out@ == data@.subrange(pos as int, pos + 32),
{
    let len: usize = data.len();
    let mut out: [u8; 32] = [0u8; 32];
    let mut i: usize = 0;
    while i < 32
        invariant
            i <= 32,
            pos + 32 <= len,
            len == data@.len(),
            forall|j: int| 0 <= j < i ==> out@[j] == data@[pos + j],
        decreases 32 - i,
    {
        out[i] = data[pos + i];
        i = i + 1;
    }
    assert(out@ =~= data@.subrange(pos as int, pos + 32));
    out
}

/// The 64 bytes of `data` that start at `pos`.
pub fn read_array64(data: &[u8], pos: usize) -> (out: [u8; 64])
    requires
        pos + 64 <= data@.len(),
    ensures
        out@ == data@.subrange(pos as int, pos + 64),
{
    let len: usize = data.len();
    let mut out: [u8; 64] = [0u8; 64];
    let mut i: usize = 0;
    while i < 64
        invariant
            i <= 64,
            pos + 64 <= len,
            len == data@.len(),
            forall|j: int| 0 <= j < i ==> out@[j] == data@[pos + j],
        decreases 64 - i,
    {
        out[i] = data[pos + i];
        i = i + 1;
    }
    assert(out@ =~= data@.subrange(pos as int, pos + 64));
    out
}

/// Appends `more` to `buf`.
pub fn push_bytes(buf: &mut Vec<u8>, more: &[u8])
    ensures
        final(buf)@ == old(buf)@ + more@,
{
    buf.extend_from_slice(more);
    assert(buf@ =~= old(buf)@ + more@);
}

} // verus!
