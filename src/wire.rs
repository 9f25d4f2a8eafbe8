//! Big-endian integers inside byte buffers: the arithmetic every header
//! field of every protocol handled here is read and written with.
use vstd::prelude::*;
use vstd::arithmetic::div_mod::{lemma_div_denominator, lemma_mod_breakdown, lemma_small_mod};

verus! {

/// 256 raised to `n`: how many values `n` bytes can hold.
pub open spec fn pow256(n: nat) -> nat
    decreases n,
{
    if n == 0 {
        1
    } else {
        256 * pow256((n - 1) as nat)
    }
}

/// The unsigned integer that the bytes of `s` spell, most significant first.
pub open spec fn be_value(s: Seq<u8>) -> nat
    decreases s.len(),
{
    if s.len() == 0 {
        0
    } else {
        (be_value(s.drop_last()) * 256 + s.last()) as nat
    }
}

/// The `n` low-order bytes of `v`, most significant first.
pub open spec fn be_bytes(v: nat, n: nat) -> Seq<u8> {
    Seq::new(n, |i: int| ((v / pow256((n - 1 - i) as nat)) % 256) as u8)
}

/// `s` with the bytes of `t` written over it from index `off` on; the length stays.
pub open spec fn overwrite(s: Seq<u8>, off: int, t: Seq<u8>) -> Seq<u8> {
    Seq::new(s.len(), |k: int| if off <= k < off + t.len() { t[k - off] } else { s[k] })
}

pub proof fn lemma_pow256_positive(n: nat)
    ensures
        pow256(n) > 0,
    decreases n,
{
    if n > 0 {
        lemma_pow256_positive((n - 1) as nat);
    }
}

pub proof fn lemma_pow256_monotone(a: nat, b: nat)
    requires
        a <= b,
    ensures
        pow256(a) <= pow256(b),
    decreases b,
{
    if a < b {
        lemma_pow256_monotone(a, (b - 1) as nat);
        lemma_pow256_positive((b - 1) as nat);
    }
}

pub proof fn lemma_pow256_small()
    ensures
        pow256(0) == 1,
        pow256(1) == 0x100,
        pow256(2) == 0x1_0000,
        pow256(3) == 0x100_0000,
        pow256(4) == 0x1_0000_0000,
        pow256(5) == 0x100_0000_0000,
        pow256(6) == 0x1_0000_0000_0000,
        pow256(7) == 0x100_0000_0000_0000,
        pow256(8) == 0x1_0000_0000_0000_0000,
{
    assert(pow256(0) == 1);
    assert(pow256(1) == 0x100);
    assert(pow256(2) == 0x1_0000);
    assert(pow256(3) == 0x100_0000);
    assert(pow256(4) == 0x1_0000_0000);
    assert(pow256(5) == 0x100_0000_0000);
    assert(pow256(6) == 0x1_0000_0000_0000);
    assert(pow256(7) == 0x100_0000_0000_0000);
    assert(pow256(8) == 0x1_0000_0000_0000_0000);
}

pub proof fn lemma_be_value_bound(s: Seq<u8>)
    ensures
        be_value(s) < pow256(s.len()),
    decreases s.len(),
{
    if s.len() > 0 {
        lemma_be_value_bound(s.drop_last());
        assert(be_value(s.drop_last()) + 1 <= pow256((s.len() - 1) as nat));
        assert((be_value(s.drop_last()) + 1) * 256 <= pow256((s.len() - 1) as nat) * 256)
            by (nonlinear_arith)
            requires
                be_value(s.drop_last()) + 1 <= pow256((s.len() - 1) as nat),
        ;
    }
}

/// Reading one more byte shifts the value read so far by eight bits.
pub proof fn lemma_be_value_step(s: Seq<u8>, a: int, i: int)
    requires
        0 <= a <= i < s.len(),
    ensures
        be_value(s.subrange(a, i + 1)) == be_value(s.subrange(a, i)) * 256 + s[i],
{
    assert(s.subrange(a, i + 1).drop_last() =~= s.subrange(a, i));
}

/// Writing `n` bytes and reading them back gives `v` modulo `256^n`.
pub proof fn lemma_be_bytes_value(v: nat, n: nat)
    ensures
        be_value(be_bytes(v, n)) == v % pow256(n),
    decreases n,
{
    lemma_pow256_positive(n);
    if n == 0 {
        assert(be_bytes(v, n) =~= Seq::<u8>::empty());
        lemma_small_mod(0, 1);
        assert(v % 1 == 0);
    } else {
        let m = (n - 1) as nat;
        lemma_pow256_positive(m);
        assert forall|i: int| 0 <= i < m implies be_bytes(v, n)[i] == be_bytes(v / 256, m)[i] by {
            let e = (m - 1 - i) as nat;
            lemma_pow256_positive(e);
            assert(pow256((n - 1 - i) as nat) == 256 * pow256(e));
            lemma_div_denominator(v as int, 256, pow256(e) as int);
        }
        assert(be_bytes(v, n).drop_last() =~= be_bytes(v / 256, m));
        lemma_be_bytes_value(v / 256, m);
        assert(pow256(0) == 1);
        assert(v as int / 1 == v) by (nonlinear_arith);
        assert(be_bytes(v, n).last() == v % 256);
        lemma_mod_breakdown(v as int, 256, pow256(m) as int);
    }
}

/// Reads the `n`-byte big-endian integer that starts at `off` in `buf`.
pub fn read_be(buf: &[u8], off: usize, n: usize) -> (r: u64)
    requires
        n <= 8,
        off + n <= buf@.len(),
    ensures
        r as nat == be_value(buf@.subrange(off as int, off + n)),
{
    let len = buf.len();
    let mut acc: u64 = 0;
    let mut i: usize = off;
    proof {
        assert(buf@.subrange(off as int, off as int) =~= Seq::<u8>::empty());
    }
    while i < off + n
        invariant
            off <= i <= off + n,
            off + n <= buf@.len(),
            len == buf@.len(),
            n <= 8,
            acc as nat == be_value(buf@.subrange(off as int, i as int)),
        decreases off + n - i,
    {
        proof {
            lemma_be_value_step(buf@, off as int, i as int);
            lemma_be_value_bound(buf@.subrange(off as int, i as int));
            lemma_pow256_monotone((i - off) as nat, 7);
            lemma_pow256_small();
        }
        acc = acc * 256 + buf[i] as u64;
        i = i + 1;
    }
    acc
}

/// A new buffer holding the bytes of `s` from `start` up to `end`.
pub fn copy_range(s: &[u8], start: usize, end: usize) -> (r: Vec<u8>)
    requires
        start <= end <= s@.len(),
    ensures
        r@ == s@.subrange(start as int, end as int),
{
    vstd::slice::slice_to_vec(vstd::slice::slice_subrange(s, start, end))
}

/// Appends the bytes of `s` to `buf`.
pub fn append_bytes(buf: &mut Vec<u8>, s: &[u8])
    ensures
        final(buf)@ == old(buf)@ + s@,
{
    let n = s.len();
    let mut i: usize = 0;
    while i < n
        invariant
            n == s@.len(),
            i <= n,
            buf@ == old(buf)@ + s@.subrange(0, i as int),
        decreases n - i,
    {
        buf.push(s[i]);
        i = i + 1;
        assert(buf@ =~= old(buf)@ + s@.subrange(0, i as int));
    }
    assert(s@.subrange(0, n as int) =~= s@);
}

/// Writes the `n` low-order bytes of `v`, most significant first, over `buf` from `off` on.
pub fn put_be(buf: &mut Vec<u8>, off: usize, v: u64, n: usize)
    requires
        off + n <= old(buf)@.len(),
    ensures
        final(buf)@ == overwrite(old(buf)@, off as int, be_bytes(v as nat, n as nat)),
{
    let ghost bytes = be_bytes(v as nat, n as nat);
    let mut cur: u64 = v;
    let mut i: usize = n;
    let len = buf.len();
    proof {
        assert(pow256(0) == 1);
        assert(v as int / 1 == v) by (nonlinear_arith);
    }
    while i > 0
        invariant
            i <= n,
            off + n <= buf@.len(),
            len == buf@.len(),
            buf@.len() == old(buf)@.len(),
            bytes == be_bytes(v as nat, n as nat),
            cur as nat == v as nat / pow256((n - i) as nat),
            forall|k: int| 0 <= k < off + i ==> buf@[k] == old(buf)@[k],
            forall|k: int| off + n <= k < buf@.len() ==> buf@[k] == old(buf)@[k],
            forall|k: int| off + i <= k < off + n ==> buf@[k] == bytes[k - off],
        decreases i,
    {
        let ghost e = (n - i) as nat;
        proof {
            lemma_pow256_positive(e);
            lemma_div_denominator(v as int, pow256(e) as int, 256);
            assert(pow256(e + 1) == 256 * pow256(e));
            assert(bytes[i - 1] == ((v as nat / pow256(e)) % 256) as u8);
        }
        buf.set(off + i - 1, (cur % 256) as u8);
        cur = cur / 256;
        i = i - 1;
    }
    assert(buf@ =~= overwrite(old(buf)@, off as int, bytes));
}

/// Reads the big-endian 16-bit integer at `off`.
pub fn read_u16(buf: &[u8], off: usize) -> (r: u16)
    requires
        off + 2 <= buf@.len(),
    ensures
        r as nat == be_value(buf@.subrange(off as int, off + 2)),
{
    let v = read_be(buf, off, 2);
    proof {
        lemma_be_value_bound(buf@.subrange(off as int, off + 2));
        lemma_pow256_small();
    }
    v as u16
}

/// Reads the big-endian 32-bit integer at `off`.
pub fn read_u32(buf: &[u8], off: usize) -> (r: u32)
    requires
        off + 4 <= buf@.len(),
    ensures
        r as nat == be_value(buf@.subrange(off as int, off + 4)),
{
    let v = read_be(buf, off, 4);
    proof {
        lemma_be_value_bound(buf@.subrange(off as int, off + 4));
        lemma_pow256_small();
    }
    v as u32
}

/// Appends the `n` low-order bytes of `v`, most significant first, to `buf`.
pub fn push_be(buf: &mut Vec<u8>, v: u64, n: usize)
    ensures
        final(buf)@ == old(buf)@ + be_bytes(v as nat, n as nat),
{
    let start = buf.len();
    let mut k: usize = 0;
    while k < n
        invariant
            k <= n,
            start == old(buf)@.len(),
            buf@.len() == start + k,
            forall|i: int| 0 <= i < start ==> buf@[i] == old(buf)@[i],
        decreases n - k,
    {
        buf.push(0);
        k = k + 1;
    }
    put_be(buf, start, v, n);
    assert(buf@ =~= old(buf)@ + be_bytes(v as nat, n as nat));
}

} // verus!
