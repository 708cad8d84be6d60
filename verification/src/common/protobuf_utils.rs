use vstd::prelude::*;

verus! {

/// `128^n`.
pub open spec fn pow128(n: nat) -> nat
    decreases n,
{
    if n == 0 {
        1
    } else {
        128 * pow128((n - 1) as nat)
    }
}

/// The protobuf varint encoding of `v`: seven bits per byte, least
/// significant group first, the high bit set on every byte but the last.
pub open spec fn varint_bytes(v: nat) -> Seq<u8>
    decreases v,
{
    if v < 128 {
        seq![v as u8]
    } else {
        seq![(v % 128 + 128) as u8] + varint_bytes(v / 128)
    }
}

/// The value of the seven-bit groups of the first `n` bytes of `s`.
pub open spec fn varint_sum(s: Seq<u8>, n: nat) -> nat
    decreases n,
{
    if n == 0 || n > s.len() {
        0
    } else {
        varint_sum(s, (n - 1) as nat) + (s[n - 1] % 128) as nat * pow128((n - 1) as nat)
    }
}

/// The length of the varint that starts at `i` in `s`, counted from the
/// start of `s`: one past the first byte from `i` on whose high bit is
/// clear, if that byte is among the first ten and in `s`.
pub open spec fn varint_stop(s: Seq<u8>, i: nat) -> Option<nat>
    decreases 10 - i,
{
    if i >= 10 || i >= s.len() {
        None
    } else if s[i as int] < 128 {
        Some(i + 1)
    } else {
        varint_stop(s, i + 1)
    }
}

/// Reading a varint at the start of `s` the way quick-protobuf's
/// `BytesReader::read_varint64` does: at most ten bytes, the value taken
/// modulo `2^64`; the length read comes with it.
pub open spec fn read_varint(s: Seq<u8>) -> Option<(u64, nat)> {
    match varint_stop(s, 0) {
        Some(n) => Some(((varint_sum(s, n) % 0x1_0000_0000_0000_0000) as u64, n)),
        None => None,
    }
}

pub proof fn lemma_pow128_facts(n: nat)
    ensures
        pow128(n) >= 1,
        pow128(n + 1) == 128 * pow128(n),
    decreases n,
{
    if n > 0 {
        lemma_pow128_facts((n - 1) as nat);
    }
}

proof fn lemma_pow128_10()
    ensures
        pow128(10) > 0x1_0000_0000_0000_0000,
        pow128(10) == 0x40_0000_0000_0000_0000,
{
    assert(pow128(0) == 1);
    assert(pow128(1) == 128);
    assert(pow128(2) == 0x4000);
    assert(pow128(3) == 0x20_0000);
    assert(pow128(4) == 0x1000_0000);
    assert(pow128(5) == 0x8_0000_0000);
    assert(pow128(6) == 0x400_0000_0000);
    assert(pow128(7) == 0x2_0000_0000_0000);
    assert(pow128(8) == 0x100_0000_0000_0000);
    assert(pow128(9) == 0x8000_0000_0000_0000);
    assert(pow128(10) == 0x40_0000_0000_0000_0000);
}

pub proof fn lemma_pow128_mono(a: nat, b: nat)
    requires
        a <= b,
    ensures
        pow128(a) <= pow128(b),
    decreases b,
{
    if a < b {
        lemma_pow128_mono(a, (b - 1) as nat);
        lemma_pow128_facts((b - 1) as nat);
    }
}

/// The first `n` bytes contribute less than `128^n`.
pub proof fn lemma_varint_sum_bound(s: Seq<u8>, n: nat)
    ensures
        varint_sum(s, n) < pow128(n),
    decreases n,
{
    lemma_pow128_facts(n);
    if n > 0 && n <= s.len() {
        lemma_varint_sum_bound(s, (n - 1) as nat);
        let d = (s[n - 1] % 128) as nat;
        let p = pow128((n - 1) as nat);
        lemma_pow128_facts((n - 1) as nat);
        assert(d * p <= 127 * p) by (nonlinear_arith)
            requires
                d <= 127,
        ;
    } else if n > s.len() {
        lemma_pow128_facts((n - 1) as nat);
    }
}

/// The sum only looks at the first `n` bytes.
pub proof fn lemma_varint_sum_prefix(s: Seq<u8>, t: Seq<u8>, n: nat)
    requires
        n <= s.len(),
        n <= t.len(),
        s.subrange(0, n as int) == t.subrange(0, n as int),
    ensures
        varint_sum(s, n) == varint_sum(t, n),
    decreases n,
{
    if n > 0 {
        assert(s[n - 1] == s.subrange(0, n as int)[n - 1]);
        assert(t[n - 1] == t.subrange(0, n as int)[n - 1]);
        assert(s.subrange(0, n - 1) == s.subrange(0, n as int).subrange(0, n - 1));
        assert(t.subrange(0, n - 1) == t.subrange(0, n as int).subrange(0, n - 1));
        lemma_varint_sum_prefix(s, t, (n - 1) as nat);
    }
}

/// Peeling off the first byte: `sum(d : rest, n + 1) == d % 128 + 128 * sum(rest, n)`.
pub proof fn lemma_varint_sum_cons(s: Seq<u8>, n: nat)
    requires
        s.len() >= 1,
        n + 1 <= s.len(),
    ensures
        varint_sum(s, n + 1) == (s[0] % 128) as nat + 128 * varint_sum(s.drop_first(), n),
    decreases n,
{
    if n == 0 {
        assert(pow128(0) == 1);
        assert(varint_sum(s, 0) == 0);
        assert(varint_sum(s.drop_first(), 0) == 0);
        assert(varint_sum(s, 1) == varint_sum(s, 0) + (s[0] % 128) as nat * pow128(0));
    } else {
        lemma_varint_sum_cons(s, (n - 1) as nat);
        assert(pow128(n) == 128 * pow128((n - 1) as nat));
        let r = s.drop_first();
        let d = (s[n as int] % 128) as nat;
        assert(r[n - 1] == s[n as int]);
        lemma_pow128_facts((n - 1) as nat);
        let p = pow128((n - 1) as nat);
        assert(varint_sum(r, n) == varint_sum(r, (n - 1) as nat) + d * p);
        assert(varint_sum(s, n + 1) == varint_sum(s, n) + d * pow128(n));
        assert(d * (128 * p) == 128 * (d * p)) by (nonlinear_arith);
        assert(128 * (varint_sum(r, (n - 1) as nat) + d * p) == 128 * varint_sum(r, (n - 1) as nat)
            + 128 * (d * p)) by (nonlinear_arith);
    }
}

/// Everything about the encoding of a value below `2^64`: its length is at
/// most ten, every byte but the last has the high bit set, and reading it
/// back, whatever follows it, gives the value and its length.
pub proof fn lemma_varint_roundtrip(v: nat, rest: Seq<u8>)
    requires
        v < 0x1_0000_0000_0000_0000,
    ensures
        1 <= varint_bytes(v).len() <= 10,
        read_varint(varint_bytes(v) + rest) == Some((v as u64, varint_bytes(v).len())),
{
    lemma_pow128_10();
    lemma_varint_facts(v, 10);
    let b = varint_bytes(v);
    let s = b + rest;
    lemma_varint_stop_of(b, rest, 0);
    assert(s.subrange(0, b.len() as int) == b);
    assert(b.subrange(0, b.len() as int) == b);
    lemma_varint_sum_prefix(s, b, b.len());
}

proof fn lemma_varint_stop_of(b: Seq<u8>, rest: Seq<u8>, i: nat)
    requires
        1 <= b.len() <= 10,
        i < b.len(),
        forall|j: int| 0 <= j < b.len() - 1 ==> b[j] >= 128,
        b[b.len() - 1] < 128,
    ensures
        varint_stop(b + rest, i) == Some(b.len()),
    decreases b.len() - i,
{
    let s = b + rest;
    assert(s[i as int] == b[i as int]);
    if i + 1 < b.len() {
        lemma_varint_stop_of(b, rest, i + 1);
    }
}

/// The shape of the encoding of `v < 128^k`, and the value it sums to.
proof fn lemma_varint_facts(v: nat, k: nat)
    requires
        v < pow128(k),
        v < 0x1_0000_0000_0000_0000,
        1 <= k <= 10,
    ensures
        1 <= varint_bytes(v).len() <= k,
        forall|j: int| 0 <= j < varint_bytes(v).len() - 1 ==> varint_bytes(v)[j] >= 128,
        varint_bytes(v)[varint_bytes(v).len() - 1] < 128,
        varint_sum(varint_bytes(v), varint_bytes(v).len()) == v,
    decreases v,
{
    let b = varint_bytes(v);
    if v < 128 {
        assert(b.len() == 1);
        assert(pow128(0) == 1);
        assert(varint_sum(b, 0) == 0);
        assert(b[0] == v as u8);
        assert(varint_sum(b, 1) == varint_sum(b, 0) + (b[0] % 128) as nat * pow128(0));
    } else {
        let q = v / 128;
        lemma_pow128_facts((k - 1) as nat);
        assert(q < pow128((k - 1) as nat));
        if k == 1 {
            assert(pow128(0) == 1);
            assert(false);
        }
        lemma_varint_facts(q, (k - 1) as nat);
        let t = varint_bytes(q);
        assert(b == seq![(v % 128 + 128) as u8] + t);
        assert(b.drop_first() == t);
        assert forall|j: int| 0 <= j < b.len() - 1 implies b[j] >= 128 by {
            if j > 0 {
                assert(b[j] == t[j - 1]);
            }
        }
        assert(b[b.len() - 1] == t[t.len() - 1]);
        lemma_varint_sum_cons(b, t.len());
        assert(((v % 128 + 128) as u8) % 128 == v % 128);
    }
}

} // verus!

verus! {

/// quick-protobuf's `sizeof_varint`: the number of bytes of the varint
/// encoding of `v`. The crate computes it from a table of the value ranges
/// that take one to ten bytes.
pub assume_specification[ quick_protobuf::sizeofs::sizeof_varint ](v: u64) -> (r: usize)
    ensures
        r == varint_bytes(v as nat).len(),
;

/// quick-protobuf's `Writer::write_varint` on a `Vec<u8>` backend: appends
/// the varint encoding of `v`. Writing to a vector cannot fail, so the
/// crate's `Result` is dropped here.
#[verifier::external_body]
fn pb_write_varint(buf: &mut Vec<u8>, v: u64)
    ensures
        final(buf)@ == old(buf)@ + varint_bytes(v as nat),
{
    let _ = quick_protobuf::Writer::new(buf).write_varint(v);
}

/// quick-protobuf's `Writer::write_bytes` on a `Vec<u8>` backend: appends
/// the varint of the length of `bytes`, then `bytes`.
#[verifier::external_body]
fn pb_write_bytes(buf: &mut Vec<u8>, bytes: &[u8])
    ensures
        final(buf)@ == old(buf)@ + varint_bytes(bytes@.len()) + bytes@,
{
    let _ = quick_protobuf::Writer::new(buf).write_bytes(bytes);
}

/// Appends the varint encoding of `v` to `buf`.
pub fn push_varint(buf: &mut Vec<u8>, v: u64)
    ensures
        final(buf)@ == old(buf)@ + varint_bytes(v as nat),
{
    pb_write_varint(buf, v);
}

/// Appends a length-delimited chunk: the varint of its length, then the bytes.
pub fn push_len_delimited(buf: &mut Vec<u8>, bytes: &[u8])
    ensures
        final(buf)@ == old(buf)@ + varint_bytes(bytes@.len()) + bytes@,
{
    pb_write_bytes(buf, bytes);
}

/// The varint encoding of `v`.
pub fn write_varint64(v: u64) -> (r: Vec<u8>)
    ensures
        r@ == varint_bytes(v as nat),
        1 <= r@.len() <= 10,
{
    let mut buf: Vec<u8> = Vec::new();
    pb_write_varint(&mut buf, v);
    proof {
        lemma_varint_roundtrip(v as nat, Seq::empty());
        assert(buf@ =~= varint_bytes(v as nat));
    }
    buf
}

/// The number of bytes of the varint encoding of `v`.
pub fn inner_sizeof_varint(v: u64) -> (r: usize)
    ensures
        r == varint_bytes(v as nat).len(),
        1 <= r <= 10,
{
    proof {
        lemma_varint_roundtrip(v as nat, Seq::empty());
    }
    quick_protobuf::sizeofs::sizeof_varint(v)
}

/// Why a varint could not be read.
#[derive(Clone, Copy, Debug, PartialEq, Eq)]
pub enum VarintError {
    /// The buffer ended inside the varint.
    UnexpectedEnd,
    /// Ten bytes were read and the varint had not ended.
    TooLong,
}

/// Reads the varint at `offset` in `buf`: its value and the number of its
/// bytes, or `None` when no complete varint of at most ten bytes starts
/// there.
pub fn read_varint_at(buf: &[u8], offset: usize) -> (r: Option<(u64, usize)>)
    ensures
        offset <= buf@.len() ==> match read_varint(buf@.subrange(offset as int, buf@.len() as int)) {
            Some((v, n)) => r == Some((v, n as usize)),
            None => r is None,
        },
        offset > buf@.len() ==> r is None,
{
    if offset > buf.len() {
        return None;
    }
    let ghost s = buf@.subrange(offset as int, buf@.len() as int);
    let mut i: usize = 0;
    let mut acc: u128 = 0;
    let mut mul: u128 = 1;
    proof {
        lemma_pow128_10();
    }
    while i < 10
        invariant
            offset <= buf@.len(),
            s == buf@.subrange(offset as int, buf@.len() as int),
            i <= 10,
            i <= s.len(),
            acc == varint_sum(s, i as nat),
            mul == pow128(i as nat),
            pow128(10) > 0x1_0000_0000_0000_0000,
            pow128(10) == 0x40_0000_0000_0000_0000,
            varint_stop(s, 0) == varint_stop(s, i as nat),
        decreases 10 - i,
    {
        if i >= buf.len() - offset {
            return None;
        }
        let b = buf[offset + i];
        proof {
            assert(s[i as int] == b);
            lemma_varint_sum_bound(s, i as nat);
            lemma_pow128_mono((i + 1) as nat, 10);
            lemma_pow128_facts(i as nat);
            let d = (b % 128) as nat;
            assert(d * pow128(i as nat) <= 127 * pow128(i as nat)) by (nonlinear_arith)
                requires
                    d <= 127,
            ;
            assert(acc + d * mul < pow128((i + 1) as nat));
            assert(pow128((i + 1) as nat) <= pow128(10));
        }
        acc = acc + ((b % 128) as u128) * mul;
        if b < 128 {
            let n = i + 1;
            proof {
                assert(varint_stop(s, i as nat) == Some((i + 1) as nat));
                assert(acc == varint_sum(s, (i + 1) as nat));
            }
            let v = (acc % 0x1_0000_0000_0000_0000u128) as u64;
            return Some((v, n));
        }
        proof {
            assert(varint_stop(s, i as nat) == varint_stop(s, (i + 1) as nat));
        }
        mul = mul * 128;
        i += 1;
    }
    proof {
        assert(varint_stop(s, 10) is None);
    }
    None
}

/// The varint at `offset` in `buf`, or why it could not be read.
pub fn read_varint64_offset(buf: &[u8], offset: usize) -> (r: Result<u64, VarintError>)
    ensures
        offset <= buf@.len() ==> match read_varint(buf@.subrange(offset as int, buf@.len() as int)) {
            Some((v, _)) => r == Ok::<u64, VarintError>(v),
            None => if buf@.len() - offset >= 10 {
                r == Err::<u64, VarintError>(VarintError::TooLong)
            } else {
                r == Err::<u64, VarintError>(VarintError::UnexpectedEnd)
            },
        },
        offset > buf@.len() ==> r == Err::<u64, VarintError>(VarintError::UnexpectedEnd),
{
    match read_varint_at(buf, offset) {
        Some((v, _)) => Ok(v),
        None => {
            if offset < buf.len() && buf.len() - offset >= 10 {
                Err(VarintError::TooLong)
            } else {
                Err(VarintError::UnexpectedEnd)
            }
        },
    }
}

/// The varint at the start of `buf`, or why it could not be read.
pub fn read_varint64(buf: &[u8]) -> (r: Result<u64, VarintError>)
    ensures
        match read_varint(buf@) {
            Some((v, _)) => r == Ok::<u64, VarintError>(v),
            None => if buf@.len() >= 10 {
                r == Err::<u64, VarintError>(VarintError::TooLong)
            } else {
                r == Err::<u64, VarintError>(VarintError::UnexpectedEnd)
            },
        },
{
    assert(buf@.subrange(0, buf@.len() as int) =~= buf@);
    read_varint64_offset(buf, 0)
}

} // verus!

verus! {

/// One field of a protobuf message body, as this project's messages read it.
pub enum PbField {
    /// A varint field (wire type 0) with its full tag and value.
    Varint { tag: u32, value: u64 },
    /// A length-delimited field (wire type 2) with its full tag and bytes.
    Chunk { tag: u32, data: Seq<u8> },
    /// A fixed-width field (wire type 1 or 5), which no message here reads.
    Fixed { tag: u32 },
}

/// The first field of `s` and the number of its bytes. A tag is read as a
/// varint taken modulo `2^32`; wire types 3, 4, 6 and 7 are refused, and so
/// is a length-delimited field whose length does not fit in 32 bits.
#[verifier::opaque]
pub open spec fn first_field(s: Seq<u8>) -> Option<(PbField, nat)> {
    match read_varint(s) {
        None => None,
        Some((t, n)) => {
            let tag = (t % 0x1_0000_0000) as u32;
            let rest = s.subrange(n as int, s.len() as int);
            let wire = tag % 8;
            if wire == 0 {
                match read_varint(rest) {
                    Some((v, m)) => Some((PbField::Varint { tag, value: v }, n + m)),
                    None => None,
                }
            } else if wire == 2 {
                match read_varint(rest) {
                    Some((len, m)) => if len < 0x1_0000_0000 && m + len <= rest.len() {
                        Some(
                            (
                                PbField::Chunk {
                                    tag,
                                    data: rest.subrange(m as int, (m + len) as int),
                                },
                                (n + m + len) as nat,
                            ),
                        )
                    } else {
                        None
                    },
                    None => None,
                }
            } else if wire == 1 {
                if 8 <= rest.len() {
                    Some((PbField::Fixed { tag }, n + 8))
                } else {
                    None
                }
            } else if wire == 5 {
                if 4 <= rest.len() {
                    Some((PbField::Fixed { tag }, n + 4))
                } else {
                    None
                }
            } else {
                None
            }
        },
    }
}

/// The fields of a message body, in order, or `None` if it is malformed.
#[verifier::opaque]
pub open spec fn fields_of(s: Seq<u8>) -> Option<Seq<PbField>>
    decreases s.len(),
{
    if s.len() == 0 {
        Some(Seq::empty())
    } else {
        match first_field(s) {
            None => None,
            Some((f, n)) => if n == 0 || n > s.len() {
                None
            } else {
                match fields_of(s.subrange(n as int, s.len() as int)) {
                    Some(fs) => Some(seq![f] + fs),
                    None => None,
                }
            },
        }
    }
}

/// The wire kind of a field read by `next_field`.
#[derive(Clone, Copy, Debug, PartialEq, Eq)]
pub enum FieldKind {
    Varint,
    Chunk,
    Fixed,
}

/// Where a field read by `next_field` lies: its tag, its varint value, and
/// for a length-delimited field the position and length of its bytes.
#[derive(Clone, Copy, Debug)]
pub struct FieldPos {
    pub tag: u32,
    pub kind: FieldKind,
    pub value: u64,
    pub start: usize,
    pub len: usize,
    pub end: usize,
}

/// The field that `p` describes within `buf`.
pub open spec fn field_at(buf: Seq<u8>, p: FieldPos) -> PbField {
    match p.kind {
        FieldKind::Varint => PbField::Varint { tag: p.tag, value: p.value },
        FieldKind::Chunk => PbField::Chunk {
            tag: p.tag,
            data: buf.subrange(p.start as int, (p.start + p.len) as int),
        },
        FieldKind::Fixed => PbField::Fixed { tag: p.tag },
    }
}

pub proof fn lemma_read_varint_len(s: Seq<u8>)
    ensures
        read_varint(s) matches Some((v, n)) ==> 1 <= n <= s.len() && n <= 10,
{
    lemma_varint_stop_bounds(s, 0);
}

proof fn lemma_varint_stop_bounds(s: Seq<u8>, i: nat)
    ensures
        varint_stop(s, i) matches Some(n) ==> i < n <= s.len() && n <= 10,
    decreases 10 - i,
{
    if i < 10 && i < s.len() && s[i as int] >= 128 {
        lemma_varint_stop_bounds(s, i + 1);
    }
}

#[verifier::rlimit(50)]
/// Reads the field that starts at `pos` in `buf[..end]`; `Ok(None)` at the
/// end of the body, `Err` when the body is malformed there.
pub fn next_field(buf: &[u8], pos: usize, end: usize) -> (r: Result<Option<FieldPos>, ()>)
    requires
        pos <= end <= buf@.len(),
    ensures
        ({
            let s = buf@.subrange(pos as int, end as int);
            match r {
                Ok(None) => pos == end,
                Ok(Some(p)) => pos < end && (p.kind == FieldKind::Chunk ==> pos <= p.start && p.start + p.len
                    == p.end) && first_field(s) == Some(
                    (field_at(buf@, p), (p.end - pos) as nat),
                ) && pos < p.end <= end,
                Err(_) => pos < end && first_field(s) is None,
            }
        }),
{
    reveal(first_field);
    if pos == end {
        return Ok(None);
    }
    let ghost s = buf@.subrange(pos as int, end as int);
    let body = vstd::slice::slice_subrange(buf, 0, end);
    assert(body@ == buf@.subrange(0, end as int));
    assert(body@.subrange(pos as int, end as int) == s);
    let (t, n) = match read_varint_at(body, pos) {
        Some(x) => x,
        None => return Err(()),
    };
    proof {
        lemma_read_varint_len(s);
    }
    let tag = (t % 0x1_0000_0000u64) as u32;
    let ghost rest = s.subrange(n as int, s.len() as int);
    let p1 = pos + n;
    assert(body@.subrange(p1 as int, end as int) == rest);
    let wire = tag % 8;
    if wire == 0 {
        match read_varint_at(body, p1) {
            Some((v, m)) => {
                proof {
                    lemma_read_varint_len(rest);
                }
                Ok(Some(FieldPos { tag, kind: FieldKind::Varint, value: v, start: 0, len: 0, end: p1 + m }))
            },
            None => Err(()),
        }
    } else if wire == 2 {
        match read_varint_at(body, p1) {
            Some((len, m)) => {
                proof {
                    lemma_read_varint_len(rest);
                }
                if len < 0x1_0000_0000u64 && (len as usize) <= end - p1 - m {
                    let start = p1 + m;
                    let l = len as usize;
                    proof {
                        assert(rest.subrange(m as int, (m + len) as int) == buf@.subrange(
                            start as int,
                            (start + l) as int,
                        ));
                    }
                    Ok(Some(FieldPos { tag, kind: FieldKind::Chunk, value: 0, start, len: l, end: start + l }))
                } else {
                    Err(())
                }
            },
            None => Err(()),
        }
    } else if wire == 1 {
        if 8 <= end - p1 {
            Ok(Some(FieldPos { tag, kind: FieldKind::Fixed, value: 0, start: 0, len: 0, end: p1 + 8 }))
        } else {
            Err(())
        }
    } else if wire == 5 {
        if 4 <= end - p1 {
            Ok(Some(FieldPos { tag, kind: FieldKind::Fixed, value: 0, start: 0, len: 0, end: p1 + 4 }))
        } else {
            Err(())
        }
    } else {
        Err(())
    }
}

/// Unfolding `fields_of` once at a field that was read.
pub proof fn lemma_fields_of_step(s: Seq<u8>, f: PbField, n: nat)
    requires
        s.len() > 0,
        first_field(s) == Some((f, n)),
        0 < n <= s.len(),
    ensures
        fields_of(s) == match fields_of(s.subrange(n as int, s.len() as int)) {
            Some(fs) => Some(seq![f] + fs),
            None => None::<Seq<PbField>>,
        },
{
    reveal(fields_of);
}

/// A body whose first field is malformed has no fields.
pub proof fn lemma_fields_of_fail(s: Seq<u8>)
    requires
        s.len() > 0,
        first_field(s) is None,
    ensures
        fields_of(s) is None,
{
    reveal(fields_of);
}

/// The fields of an empty body.
pub proof fn lemma_fields_of_empty(s: Seq<u8>)
    requires
        s.len() == 0,
    ensures
        fields_of(s) == Some(Seq::<PbField>::empty()),
{
    reveal(fields_of);
}

} // verus!

verus! {

/// A field that this project writes: a varint field under a varint tag or a
/// length-delimited field under a length-delimited tag, shorter than `2^32`.
pub open spec fn field_writable(f: PbField) -> bool {
    match f {
        PbField::Varint { tag, value } => tag % 8 == 0,
        PbField::Chunk { tag, data } => tag % 8 == 2 && data.len() < 0x1_0000_0000,
        PbField::Fixed { tag } => false,
    }
}

/// The bytes of one field as quick-protobuf's writer lays it out.
pub open spec fn field_bytes(f: PbField) -> Seq<u8> {
    match f {
        PbField::Varint { tag, value } => varint_bytes(tag as nat) + varint_bytes(value as nat),
        PbField::Chunk { tag, data } => varint_bytes(tag as nat) + varint_bytes(data.len()) + data,
        PbField::Fixed { tag } => Seq::empty(),
    }
}

/// The bytes of a list of fields, one after the other.
pub open spec fn fields_bytes(fs: Seq<PbField>) -> Seq<u8>
    decreases fs.len(),
{
    if fs.len() == 0 {
        Seq::empty()
    } else {
        field_bytes(fs[0]) + fields_bytes(fs.drop_first())
    }
}

/// A written field is read back as itself, whatever follows it.
pub proof fn lemma_first_field_of_bytes(f: PbField, rest: Seq<u8>)
    requires
        field_writable(f),
    ensures
        first_field(field_bytes(f) + rest) == Some((f, field_bytes(f).len())),
        field_bytes(f).len() > 0,
{
    match f {
        PbField::Varint { tag, value } => lemma_first_varint_field(tag, value, rest),
        PbField::Chunk { tag, data } => lemma_first_chunk_field(tag, data, rest),
        PbField::Fixed { tag } => {},
    }
}

#[verifier::rlimit(40)]
proof fn lemma_first_varint_field(tag: u32, value: u64, rest: Seq<u8>)
    requires
        tag % 8 == 0,
    ensures
        first_field(field_bytes(PbField::Varint { tag, value }) + rest) == Some(
            (PbField::Varint { tag, value }, field_bytes(PbField::Varint { tag, value }).len()),
        ),
        field_bytes(PbField::Varint { tag, value }).len() > 0,
{
    let a = varint_bytes(tag as nat);
    let b = varint_bytes(value as nat);
    lemma_varint_roundtrip(tag as nat, b + rest);
    lemma_varint_roundtrip(value as nat, rest);
    reveal(first_field);
    let s = field_bytes(PbField::Varint { tag, value }) + rest;
    assert(s == a + (b + rest));
    let r = s.subrange(a.len() as int, s.len() as int);
    assert(r == b + rest);
    assert(read_varint(s) == Some((tag as u64, a.len())));
    assert((tag as u64) % 0x1_0000_0000 == tag);
    assert(read_varint(r) == Some((value, b.len())));
}

#[verifier::rlimit(40)]
proof fn lemma_first_chunk_field(tag: u32, data: Seq<u8>, rest: Seq<u8>)
    requires
        tag % 8 == 2,
        data.len() < 0x1_0000_0000,
    ensures
        first_field(field_bytes(PbField::Chunk { tag, data }) + rest) == Some(
            (PbField::Chunk { tag, data }, field_bytes(PbField::Chunk { tag, data }).len()),
        ),
        field_bytes(PbField::Chunk { tag, data }).len() > 0,
{
    let a = varint_bytes(tag as nat);
    let b = varint_bytes(data.len());
    lemma_varint_roundtrip(tag as nat, b + data + rest);
    lemma_varint_roundtrip(data.len(), data + rest);
    reveal(first_field);
    let s = field_bytes(PbField::Chunk { tag, data }) + rest;
    assert(s == a + (b + data + rest));
    let r = s.subrange(a.len() as int, s.len() as int);
    assert(r == b + (data + rest));
    assert(read_varint(s) == Some((tag as u64, a.len())));
    assert((tag as u64) % 0x1_0000_0000 == tag);
    assert(read_varint(r) == Some((data.len() as u64, b.len())));
    assert(r.subrange(b.len() as int, (b.len() + data.len()) as int) == data);
}

/// Reading the bytes of writable fields gives the fields back.
pub proof fn lemma_fields_roundtrip(fs: Seq<PbField>)
    requires
        forall|i: int| 0 <= i < fs.len() ==> field_writable(#[trigger] fs[i]),
    ensures
        fields_of(fields_bytes(fs)) == Some(fs),
    decreases fs.len(),
{
    reveal(fields_of);
    if fs.len() > 0 {
        let f = fs[0];
        let tail = fs.drop_first();
        assert forall|i: int| 0 <= i < tail.len() implies field_writable(#[trigger] tail[i]) by {
            assert(tail[i] == fs[i + 1]);
        }
        lemma_fields_roundtrip(tail);
        let t = fields_bytes(tail);
        let s = fields_bytes(fs);
        assert(s == field_bytes(f) + t);
        lemma_first_field_of_bytes(f, t);
        assert(s.subrange(field_bytes(f).len() as int, s.len() as int) == t);
        assert(seq![f] + tail == fs);
    } else {
        assert(fields_bytes(fs).len() == 0);
        assert(fs == Seq::<PbField>::empty());
    }
}

/// The bytes of `fs` followed by one more field.
pub proof fn lemma_fields_bytes_push(fs: Seq<PbField>, f: PbField)
    ensures
        fields_bytes(fs.push(f)) == fields_bytes(fs) + field_bytes(f),
    decreases fs.len(),
{
    if fs.len() == 0 {
        assert(fs.push(f).drop_first() == Seq::<PbField>::empty());
        assert(fields_bytes(fs.push(f)) == field_bytes(f) + fields_bytes(Seq::<PbField>::empty()));
    } else {
        lemma_fields_bytes_push(fs.drop_first(), f);
        assert(fs.push(f).drop_first() == fs.drop_first().push(f));
        assert(fs.push(f)[0] == fs[0]);
    }
}

/// Appends one varint field.
pub fn push_varint_field(buf: &mut Vec<u8>, tag: u32, v: u64)
    ensures
        final(buf)@ == old(buf)@ + field_bytes(PbField::Varint { tag, value: v }),
{
    push_varint(buf, tag as u64);
    push_varint(buf, v);
    assert(final(buf)@ =~= old(buf)@ + field_bytes(PbField::Varint { tag, value: v }));
}

/// Appends one length-delimited field.
pub fn push_chunk_field(buf: &mut Vec<u8>, tag: u32, data: &[u8])
    ensures
        final(buf)@ == old(buf)@ + field_bytes(PbField::Chunk { tag, data: data@ }),
{
    push_varint(buf, tag as u64);
    push_len_delimited(buf, data);
    assert(final(buf)@ =~= old(buf)@ + field_bytes(PbField::Chunk { tag, data: data@ }));
}

/// Reading a message frame the way quick-protobuf's `read_message` does:
/// a varint length taken modulo `2^32`, then that many bytes of body.
/// Returns the body's bounds, counted from the start of `s`.
pub open spec fn frame_body(s: Seq<u8>) -> Option<(nat, nat)> {
    match read_varint(s) {
        Some((l, n)) => {
            let len = (l % 0x1_0000_0000) as nat;
            if n + len <= s.len() {
                Some((n, n + len))
            } else {
                None
            }
        },
        None => None,
    }
}

/// The bounds of the body of the frame at the start of `buf`.
pub fn read_frame_body(buf: &[u8]) -> (r: Option<(usize, usize)>)
    ensures
        r matches Some((a, b)) ==> a <= b <= buf@.len() && frame_body(buf@) == Some(
            (a as nat, b as nat),
        ),
        r is None ==> frame_body(buf@) is None,
{
    assert(buf@.subrange(0, buf@.len() as int) =~= buf@);
    match read_varint_at(buf, 0) {
        Some((l, n)) => {
            proof {
                lemma_read_varint_len(buf@);
            }
            let len = (l % 0x1_0000_0000u64) as usize;
            if len <= buf.len() - n {
                Some((n, n + len))
            } else {
                None
            }
        },
        None => None,
    }
}

/// A frame written as the varint of the body's length and the body is read
/// back as that body, whatever follows it.
pub proof fn lemma_frame_roundtrip(body: Seq<u8>, rest: Seq<u8>)
    requires
        body.len() < 0x1_0000_0000,
    ensures
        frame_body(varint_bytes(body.len()) + body + rest) == Some(
            (varint_bytes(body.len()).len(), varint_bytes(body.len()).len() + body.len()),
        ),
        (varint_bytes(body.len()) + body + rest).subrange(
            varint_bytes(body.len()).len() as int,
            (varint_bytes(body.len()).len() + body.len()) as int,
        ) == body,
{
    let a = varint_bytes(body.len());
    lemma_varint_roundtrip(body.len(), body + rest);
    assert(a + body + rest == a + (body + rest));
    let s = a + body + rest;
    assert(s.subrange(a.len() as int, (a.len() + body.len()) as int) == body);
}

} // verus!

verus! {

/// The length of the frame at the start of `s`: a varint length and that
/// many bytes. A length of 0 marks the end of the stored frames.
pub open spec fn next_frame_len(s: Seq<u8>) -> Option<nat> {
    match read_varint(s) {
        Some((len, n)) => if len == 0 {
            None
        } else if n + len <= s.len() {
            Some((n + len) as nat)
        } else {
            None
        },
        None => None,
    }
}

/// A frame is never empty.
pub proof fn lemma_next_frame_len_pos(s: Seq<u8>)
    ensures
        next_frame_len(s) matches Some(n) ==> 0 < n <= s.len(),
{
    lemma_read_varint_len(s);
}

/// Cuts a byte stream, given chunk by chunk, into length-prefixed frames.
pub struct MessageBufReader {
    buf: Vec<u8>,
    start: usize,
}

impl View for MessageBufReader {
    type V = Seq<u8>;

    /// The bytes given and not yet handed out.
    closed spec fn view(&self) -> Seq<u8> {
        self.buf@.subrange(self.start as int, self.buf@.len() as int)
    }
}

impl MessageBufReader {
    pub closed spec fn wf(&self) -> bool {
        self.start <= self.buf@.len()
    }

    pub fn new() -> (r: Self)
        ensures
            r.wf(),
            r@ == Seq::<u8>::empty(),
    {
        let r = Self { buf: Vec::new(), start: 0 };
        assert(r@ =~= Seq::<u8>::empty());
        r
    }

    /// Adds the next chunk of the stream.
    pub fn append_next_buf(&mut self, data: &[u8])
        requires
            old(self).wf(),
        ensures
            final(self).wf(),
            final(self)@ == old(self)@ + data@,
    {
        let ghost before = self@;
        let mut rest: Vec<u8> = Vec::new();
        let mut i = self.start;
        while i < self.buf.len()
            invariant
                self.start <= i <= self.buf@.len(),
                rest@ == self.buf@.subrange(self.start as int, i as int),
                before == self.buf@.subrange(self.start as int, self.buf@.len() as int),
            decreases self.buf@.len() - i,
        {
            rest.push(self.buf[i]);
            i += 1;
        }
        let mut j: usize = 0;
        while j < data.len()
            invariant
                j <= data@.len(),
                rest@ == before + data@.subrange(0, j as int),
            decreases data@.len() - j,
        {
            rest.push(data[j]);
            j += 1;
        }
        self.buf = rest;
        self.start = 0;
        assert(self@ =~= before + data@);
    }

    /// Hands out the next complete frame (its length prefix included), or
    /// `None` when the stream holds no complete frame yet or has reached a
    /// zero length.
    pub fn next_message_vec(&mut self) -> (r: Option<Vec<u8>>)
        requires
            old(self).wf(),
        ensures
            final(self).wf(),
            match next_frame_len(old(self)@) {
                Some(n) => r is Some && r->0@ == old(self)@.subrange(0, n as int) && final(self)@
                    == old(self)@.subrange(n as int, old(self)@.len() as int),
                None => r is None && final(self)@ == old(self)@,
            },
    {
        let ghost s = self@;
        match read_varint_at(self.buf.as_slice(), self.start) {
            Some((len, n)) => {
                proof {
                    lemma_read_varint_len(s);
                }
                if len == 0 {
                    return None;
                }
                let avail = self.buf.len() - self.start;
                if len > (avail - n) as u64 {
                    return None;
                }
                let total = n + len as usize;
                let stop = self.start + total;
                let mut out: Vec<u8> = Vec::new();
                let mut i: usize = self.start;
                while i < stop
                    invariant
                        self.start <= i <= stop <= self.buf@.len(),
                        stop == self.start + total,
                        s == self.buf@.subrange(self.start as int, self.buf@.len() as int),
                        out@ == s.subrange(0, i - self.start),
                    decreases stop - i,
                {
                    out.push(self.buf[i]);
                    i += 1;
                }
                self.start = self.start + total;
                assert(self@ =~= s.subrange(total as int, s.len() as int));
                Some(out)
            },
            None => None,
        }
    }

    /// The stream is used up: nothing is pending, or what is pending starts
    /// with a zero length, the end mark of the stored frames.
    pub fn is_empty(&self) -> (r: bool)
        requires
            self.wf(),
        ensures
            r == (self@.len() == 0 || self@[0] == 0),
    {
        self.start == self.buf.len() || self.buf[self.start] == 0
    }
}

} // verus!

verus! {

/// The frames stored one after another at the start of `s`, up to the
/// first incomplete frame or zero length.
pub open spec fn frames_of(s: Seq<u8>) -> Seq<Seq<u8>>
    decreases s.len(),
{
    match next_frame_len(s) {
        Some(n) => if n == 0 || n > s.len() {
            Seq::empty()
        } else {
            seq![s.subrange(0, n as int)] + frames_of(s.subrange(n as int, s.len() as int))
        },
        None => Seq::empty(),
    }
}

/// Unfolding `frames_of` once at a frame.
pub proof fn lemma_frames_of_step(s: Seq<u8>, n: nat)
    requires
        next_frame_len(s) == Some(n),
    ensures
        0 < n <= s.len(),
        frames_of(s) == seq![s.subrange(0, n as int)] + frames_of(s.subrange(n as int, s.len() as int)),
{
    lemma_next_frame_len_pos(s);
}

/// `frames_of` is empty where no frame starts.
pub proof fn lemma_frames_of_none(s: Seq<u8>)
    requires
        next_frame_len(s) is None,
    ensures
        frames_of(s) == Seq::<Seq<u8>>::empty(),
{
}

/// The length of the frame at `pos` in `buf`, as `next_frame_len` gives it.
pub fn frame_len_at(buf: &[u8], pos: usize) -> (r: Option<usize>)
    requires
        pos <= buf@.len(),
    ensures
        r matches Some(n) ==> 0 < n <= buf@.len() - pos && next_frame_len(
            buf@.subrange(pos as int, buf@.len() as int),
        ) == Some(n as nat),
        r is None ==> next_frame_len(buf@.subrange(pos as int, buf@.len() as int)) is None,
{
    let ghost s = buf@.subrange(pos as int, buf@.len() as int);
    match read_varint_at(buf, pos) {
        Some((len, n)) => {
            proof {
                lemma_read_varint_len(s);
            }
            if len == 0 {
                return None;
            }
            if len > (buf.len() - pos - n) as u64 {
                return None;
            }
            Some(n + len as usize)
        },
        None => None,
    }
}

} // verus!
