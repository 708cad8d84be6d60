use vstd::prelude::*;

verus! {

/// `256^n`.
pub open spec fn pow256(n: nat) -> nat
    decreases n,
{
    if n == 0 {
        1
    } else {
        256 * pow256((n - 1) as nat)
    }
}

/// The `n` big-endian bytes of `v` (the low `8n` bits of `v`).
pub open spec fn be_bytes(v: nat, n: nat) -> Seq<u8>
    decreases n,
{
    if n == 0 {
        Seq::empty()
    } else {
        be_bytes(v / 256, (n - 1) as nat).push((v % 256) as u8)
    }
}

/// The value of big-endian bytes.
pub open spec fn be_value(s: Seq<u8>) -> nat
    decreases s.len(),
{
    if s.len() == 0 {
        0
    } else {
        be_value(s.drop_last()) * 256 + s.last() as nat
    }
}

/// Reading back big-endian bytes gives the value, when it fits.
pub proof fn lemma_be_roundtrip(v: nat, n: nat)
    requires
        v < pow256(n),
    ensures
        be_bytes(v, n).len() == n,
        be_value(be_bytes(v, n)) == v,
    decreases n,
{
    if n > 0 {
        assert(v / 256 < pow256((n - 1) as nat)) by (nonlinear_arith)
            requires
                v < 256 * pow256((n - 1) as nat),
        ;
        lemma_be_roundtrip(v / 256, (n - 1) as nat);
        let b = be_bytes(v, n);
        assert(b.drop_last() == be_bytes(v / 256, (n - 1) as nat));
    } else {
        assert(v == 0);
    }
}

/// Big-endian bytes stand for a value below `256^len`.
pub proof fn lemma_be_value_bound(s: Seq<u8>)
    ensures
        be_value(s) < pow256(s.len()),
    decreases s.len(),
{
    if s.len() > 0 {
        lemma_be_value_bound(s.drop_last());
        let p = pow256((s.len() - 1) as nat);
        let x = be_value(s.drop_last());
        assert(x * 256 + (s.last() as nat) < 256 * p) by (nonlinear_arith)
            requires
                x < p,
                s.last() < 256,
        ;
    }
}

pub proof fn lemma_pow256_values()
    ensures
        pow256(1) == 0x100,
        pow256(2) == 0x1_0000,
        pow256(4) == 0x1_0000_0000,
        pow256(8) == 0x1_0000_0000_0000_0000,
{
    assert(pow256(0) == 1);
    assert(pow256(1) == 0x100);
    assert(pow256(2) == 0x1_0000);
    assert(pow256(3) == 0x100_0000);
    assert(pow256(4) == 0x1_0000_0000);
    assert(pow256(5) == 0x100_0000_0000);
    assert(pow256(6) == 0x1_0000_0000_0000);
    assert(pow256(7) == 0x100_0000_0000_0000);
    assert(pow256(8) == 0x1_0000_0000_0000_0000);
}

/// Appends the `n` big-endian bytes of `v`.
pub fn push_be(buf: &mut Vec<u8>, v: u64, n: usize)
    requires
        n <= 8,
    ensures
        final(buf)@ == old(buf)@ + be_bytes(v as nat, n as nat),
    decreases n,
{
    if n == 0 {
        assert(old(buf)@ + be_bytes(v as nat, 0) =~= old(buf)@);
        return;
    }
    push_be(buf, v / 256, n - 1);
    buf.push((v % 256) as u8);
    assert(be_bytes(v as nat, n as nat) == be_bytes((v / 256) as nat, (n - 1) as nat).push(
        (v % 256) as u8,
    ));
    assert(final(buf)@ =~= old(buf)@ + be_bytes(v as nat, n as nat));
}

/// The value of the `n` big-endian bytes of `buf` at `pos`.
pub fn read_be(buf: &[u8], pos: usize, n: usize) -> (r: u64)
    requires
        n <= 8,
        pos + n <= buf@.len(),
    ensures
        r == be_value(buf@.subrange(pos as int, (pos + n) as int)),
    decreases n,
{
    proof {
        lemma_pow256_values();
    }
    if n == 0 {
        return 0;
    }
    let len = buf.len();
    let last = buf[pos + (n - 1)];
    let hi = read_be(buf, pos, n - 1);
    let ghost s = buf@.subrange(pos as int, (pos + n) as int);
    assert(s.drop_last() == buf@.subrange(pos as int, (pos + n - 1) as int));
    proof {
        lemma_be_value_bound(s.drop_last());
        lemma_pow256_mono((n - 1) as nat, 7);
        lemma_be_value_bound(s);
        lemma_pow256_mono(n as nat, 8);
    }
    hi * 256 + last as u64
}

pub proof fn lemma_pow256_mono(a: nat, b: nat)
    requires
        a <= b,
    ensures
        pow256(a) <= pow256(b),
    decreases b,
{
    if a < b {
        lemma_pow256_mono(a, (b - 1) as nat);
    }
}

} // verus!
