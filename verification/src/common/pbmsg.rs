use vstd::prelude::*;
use crate::common::protobuf_utils::{
    PbField, FieldKind, FieldPos, field_at, fields_of, fields_bytes, field_bytes, read_varint, varint_bytes,
    next_field, push_varint, lemma_fields_of_step, lemma_fields_of_empty, lemma_fields_of_fail,
    lemma_varint_roundtrip, read_varint_at,
};

verus! {

/// Reading a list of fields into a message, one field at a time: `step`
/// gives the message after one more field, or `None` when that field makes
/// the message unreadable.
pub open spec fn fold_fields<A>(step: spec_fn(A, PbField) -> Option<A>, init: A, fs: Seq<PbField>) -> Option<A>
    decreases fs.len(),
{
    if fs.len() == 0 {
        Some(init)
    } else {
        match fold_fields(step, init, fs.drop_last()) {
            Some(a) => step(a, fs.last()),
            None => None,
        }
    }
}

/// Reading a message body: its fields, folded from `init`.
pub open spec fn decode_body<A>(step: spec_fn(A, PbField) -> Option<A>, init: A, s: Seq<u8>) -> Option<A> {
    match fields_of(s) {
        Some(fs) => fold_fields(step, init, fs),
        None => None,
    }
}

/// One more field read after a list.
pub proof fn lemma_fold_push<A>(step: spec_fn(A, PbField) -> Option<A>, init: A, fs: Seq<PbField>, f: PbField)
    ensures
        fold_fields(step, init, fs.push(f)) == match fold_fields(step, init, fs) {
            Some(a) => step(a, f),
            None => None,
        },
{
    assert(fs.push(f).drop_last() == fs);
}

/// A list whose prefix is unreadable is unreadable.
pub proof fn lemma_fold_none_extends<A>(step: spec_fn(A, PbField) -> Option<A>, init: A, fs: Seq<PbField>, k: int)
    requires
        0 <= k <= fs.len(),
        fold_fields(step, init, fs.subrange(0, k)) is None,
    ensures
        fold_fields(step, init, fs) is None,
    decreases fs.len() - k,
{
    if k < fs.len() {
        lemma_fold_push(step, init, fs.subrange(0, k), fs[k]);
        assert(fs.subrange(0, k).push(fs[k]) == fs.subrange(0, k + 1));
        lemma_fold_none_extends(step, init, fs, k + 1);
    } else {
        assert(fs.subrange(0, k) == fs);
    }
}

/// Reading two lists of fields one after the other.
pub proof fn lemma_fold_append<A>(step: spec_fn(A, PbField) -> Option<A>, init: A, a: Seq<PbField>, b: Seq<PbField>)
    ensures
        fold_fields(step, init, a + b) == match fold_fields(step, init, a) {
            Some(x) => fold_fields(step, x, b),
            None => None,
        },
    decreases b.len(),
{
    if b.len() == 0 {
        assert(a + b == a);
    } else {
        lemma_fold_append(step, init, a, b.drop_last());
        assert((a + b).drop_last() == a + b.drop_last());
        assert((a + b).last() == b.last());
    }
}

/// The fields that the positions in `ps` describe within `buf`.
pub open spec fn fields_at(buf: Seq<u8>, ps: Seq<FieldPos>) -> Seq<PbField> {
    ps.map_values(|p: FieldPos| field_at(buf, p))
}

/// Where each field of the body `buf[start..end]` lies, or `Err` when the
/// body is malformed.
pub fn collect_fields(buf: &[u8], start: usize, end: usize) -> (r: Result<Vec<FieldPos>, ()>)
    requires
        start <= end <= buf@.len(),
    ensures
        match r {
            Ok(ps) => fields_of(buf@.subrange(start as int, end as int)) == Some(fields_at(buf@, ps@))
                && forall|i: int|
                0 <= i < ps@.len() ==> #[trigger] ps@[i].kind == FieldKind::Chunk ==> start <= ps@[i].start
                    && ps@[i].start + ps@[i].len <= end,
            Err(_) => fields_of(buf@.subrange(start as int, end as int)) is None,
        },
{
    let ghost body = buf@.subrange(start as int, end as int);
    let mut ps: Vec<FieldPos> = Vec::new();
    let mut pos = start;
    while pos < end
        invariant
            start <= pos <= end <= buf@.len(),
            body == buf@.subrange(start as int, end as int),
            forall|i: int|
                0 <= i < ps@.len() ==> #[trigger] ps@[i].kind == FieldKind::Chunk ==> start <= ps@[i].start
                    && ps@[i].start + ps@[i].len <= pos,
            match fields_of(buf@.subrange(pos as int, end as int)) {
                Some(rest) => fields_of(body) == Some(fields_at(buf@, ps@) + rest),
                None => fields_of(body) is None,
            },
        decreases end - pos,
    {
        match next_field(buf, pos, end) {
            Ok(Some(p)) => {
                let ghost f = field_at(buf@, p);
                proof {
                    let s = buf@.subrange(pos as int, end as int);
                    lemma_fields_of_step(s, f, (p.end - pos) as nat);
                    assert(s.subrange((p.end - pos) as int, s.len() as int) == buf@.subrange(
                        p.end as int,
                        end as int,
                    ));
                    assert(fields_at(buf@, ps@.push(p)) == fields_at(buf@, ps@).push(f));
                    match fields_of(buf@.subrange(p.end as int, end as int)) {
                        Some(rest) => {
                            assert(fields_at(buf@, ps@) + (seq![f] + rest) == fields_at(buf@, ps@).push(f)
                                + rest);
                        },
                        None => {},
                    }
                }
                ps.push(p);
                pos = p.end;
            },
            Ok(None) => {},
            Err(_) => {
                proof {
                    lemma_fields_of_fail(buf@.subrange(pos as int, end as int));
                }
                return Err(());
            },
        }
    }
    proof {
        assert(buf@.subrange(end as int, end as int) =~= Seq::<u8>::empty());
        lemma_fields_of_empty(buf@.subrange(end as int, end as int));
        assert(fields_at(buf@, ps@) + Seq::<PbField>::empty() == fields_at(buf@, ps@));
    }
    Ok(ps)
}

// ---- packed repeated varints ----

/// The varints of `vs`, one after the other.
pub open spec fn varints_bytes(vs: Seq<u64>) -> Seq<u8>
    decreases vs.len(),
{
    if vs.len() == 0 {
        Seq::empty()
    } else {
        varint_bytes(vs[0] as nat) + varints_bytes(vs.drop_first())
    }
}

/// Reading a packed field's bytes as varints until they end, or `None`
/// when a varint is broken or runs past the end.
pub open spec fn varints_of(s: Seq<u8>) -> Option<Seq<u64>>
    decreases s.len(),
{
    if s.len() == 0 {
        Some(Seq::empty())
    } else {
        match read_varint(s) {
            Some((v, n)) => if n == 0 || n > s.len() {
                None
            } else {
                match varints_of(s.subrange(n as int, s.len() as int)) {
                    Some(vs) => Some(seq![v] + vs),
                    None => None,
                }
            },
            None => None,
        }
    }
}

/// Packed varints read back as the values written.
pub proof fn lemma_varints_roundtrip(vs: Seq<u64>)
    ensures
        varints_of(varints_bytes(vs)) == Some(vs),
    decreases vs.len(),
{
    if vs.len() == 0 {
        assert(varints_bytes(vs) =~= Seq::<u8>::empty());
        assert(vs =~= Seq::<u64>::empty());
    } else {
        let t = vs.drop_first();
        lemma_varints_roundtrip(t);
        let a = varint_bytes(vs[0] as nat);
        let s = varints_bytes(vs);
        lemma_varint_roundtrip(vs[0] as nat, varints_bytes(t));
        assert(s == a + varints_bytes(t));
        assert(s.subrange(a.len() as int, s.len() as int) == varints_bytes(t));
        assert(seq![vs[0]] + t == vs);
    }
}

/// The packed varints of a list with one more value.
pub proof fn lemma_varints_bytes_push(vs: Seq<u64>, v: u64)
    ensures
        varints_bytes(vs.push(v)) == varints_bytes(vs) + varint_bytes(v as nat),
    decreases vs.len(),
{
    if vs.len() == 0 {
        assert(vs.push(v).drop_first() == Seq::<u64>::empty());
        assert(varints_bytes(Seq::<u64>::empty()) == Seq::<u8>::empty());
        assert(varints_bytes(vs.push(v)) == varint_bytes(v as nat) + varints_bytes(Seq::<u64>::empty()));
    } else {
        lemma_varints_bytes_push(vs.drop_first(), v);
        assert(vs.push(v).drop_first() == vs.drop_first().push(v));
        assert(vs.push(v)[0] == vs[0]);
    }
}

/// The varints of `vs`, one after the other, as a packed field's bytes.
pub fn packed_varints(vs: &Vec<u64>) -> (r: Vec<u8>)
    ensures
        r@ == varints_bytes(vs@),
{
    let mut out: Vec<u8> = Vec::new();
    let mut i: usize = 0;
    while i < vs.len()
        invariant
            i <= vs@.len(),
            out@ == varints_bytes(vs@.subrange(0, i as int)),
        decreases vs@.len() - i,
    {
        push_varint(&mut out, vs[i]);
        proof {
            lemma_varints_bytes_push(vs@.subrange(0, i as int), vs@[i as int]);
            assert(vs@.subrange(0, i as int).push(vs@[i as int]) == vs@.subrange(0, i as int + 1));
        }
        i += 1;
    }
    assert(vs@.subrange(0, vs@.len() as int) == vs@);
    out
}

/// Reads the packed varints of `buf[start..end]`.
pub fn read_packed_varints(buf: &[u8], start: usize, end: usize) -> (r: Option<Vec<u64>>)
    requires
        start <= end <= buf@.len(),
    ensures
        match varints_of(buf@.subrange(start as int, end as int)) {
            Some(vs) => r matches Some(v) && v@ == vs,
            None => r is None,
        },
{
    let body = vstd::slice::slice_subrange(buf, 0, end);
    assert(body@ == buf@.subrange(0, end as int));
    let ghost whole = buf@.subrange(start as int, end as int);
    let mut out: Vec<u64> = Vec::new();
    let mut pos = start;
    while pos < end
        invariant
            start <= pos <= end <= buf@.len(),
            body@ == buf@.subrange(0, end as int),
            whole == buf@.subrange(start as int, end as int),
            match varints_of(buf@.subrange(pos as int, end as int)) {
                Some(rest) => varints_of(whole) == Some(out@ + rest),
                None => varints_of(whole) is None,
            },
        decreases end - pos,
    {
        let ghost s = buf@.subrange(pos as int, end as int);
        assert(body@.subrange(pos as int, end as int) == s);
        match read_varint_at(body, pos) {
            Some((v, n)) => {
                proof {
                    crate::common::protobuf_utils::lemma_read_varint_len(s);
                    assert(s.subrange(n as int, s.len() as int) == buf@.subrange(pos + n, end as int));
                    match varints_of(buf@.subrange(pos + n, end as int)) {
                        Some(rest) => {
                            assert(out@ + (seq![v] + rest) == out@.push(v) + rest);
                        },
                        None => {},
                    }
                }
                out.push(v);
                pos = pos + n;
            },
            None => {
                return None;
            },
        }
    }
    proof {
        assert(buf@.subrange(end as int, end as int) =~= Seq::<u8>::empty());
        assert(out@ + Seq::<u64>::empty() == out@);
    }
    Some(out)
}

} // verus!
