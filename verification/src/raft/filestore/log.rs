use vstd::prelude::*;
use crate::common::protobuf_utils::{
    PbField, FieldKind, field_at, fields_of, fields_bytes, field_bytes, field_writable, frame_body, varint_bytes,
    push_varint_field, push_chunk_field, push_len_delimited, read_frame_body, next_field,
    lemma_fields_bytes_push, lemma_fields_of_step, lemma_fields_of_empty, lemma_fields_of_fail, lemma_fields_roundtrip, lemma_frame_roundtrip,
    lemma_varint_roundtrip,
};
use crate::raft::filestore::model::{LogRecordDto, LogRecordView};

verus! {

/// Why stored bytes could not be decoded.
#[derive(Clone, Copy, Debug, PartialEq, Eq)]
pub enum DecodeError {
    /// The frame's length prefix is broken or longer than the buffer.
    BadFrame,
    /// A field of the message body is malformed.
    BadField,
    /// A string field is not valid UTF-8.
    BadUtf8,
}

// ---- LogRecord: 1 index (varint), 2 term (varint), 5 value (bytes) ----

/// The fields that the writer emits for a log record: zero numbers and an
/// empty value are left out.
pub open spec fn log_record_fields(r: LogRecordView) -> Seq<PbField> {
    (if r.index != 0 {
        seq![PbField::Varint { tag: 8, value: r.index }]
    } else {
        Seq::empty()
    }) + (if r.term != 0 {
        seq![PbField::Varint { tag: 16, value: r.term }]
    } else {
        Seq::empty()
    }) + (if r.value.len() > 0 {
        seq![PbField::Chunk { tag: 42, data: r.value }]
    } else {
        Seq::empty()
    })
}

/// The body of a log record message.
pub open spec fn log_record_body(r: LogRecordView) -> Seq<u8> {
    fields_bytes(log_record_fields(r))
}

/// A log record as it is stored: the varint length of the body, then the body.
pub open spec fn log_record_frame(r: LogRecordView) -> Seq<u8> {
    varint_bytes(log_record_body(r).len()) + log_record_body(r)
}

/// The record with no field set.
pub open spec fn empty_log_record() -> LogRecordView {
    LogRecordView { index: 0, term: 0, value: Seq::empty() }
}

/// One field read into a log record: known fields overwrite, others are skipped.
pub open spec fn log_record_apply(acc: LogRecordView, f: PbField) -> LogRecordView {
    match f {
        PbField::Varint { tag, value } => if tag == 8 {
            LogRecordView { index: value, ..acc }
        } else if tag == 16 {
            LogRecordView { term: value, ..acc }
        } else {
            acc
        },
        PbField::Chunk { tag, data } => if tag == 42 {
            LogRecordView { value: data, ..acc }
        } else {
            acc
        },
        PbField::Fixed { tag } => acc,
    }
}

/// The record that a list of fields reads into.
pub open spec fn log_record_fold(fs: Seq<PbField>) -> LogRecordView
    decreases fs.len(),
{
    if fs.len() == 0 {
        empty_log_record()
    } else {
        log_record_apply(log_record_fold(fs.drop_last()), fs.last())
    }
}

/// Decoding a stored log record frame: the body of the frame, read field by
/// field.
pub open spec fn log_record_decode(s: Seq<u8>) -> Option<LogRecordView> {
    match frame_body(s) {
        Some((a, b)) => match fields_of(s.subrange(a as int, b as int)) {
            Some(fs) => Some(log_record_fold(fs)),
            None => None,
        },
        None => None,
    }
}

/// The stored bytes of a log record: the message frame that
/// `Writer::write_message` produces for it.
pub fn encode_log_record(r: &LogRecordDto) -> (out: Vec<u8>)
    ensures
        out@ == log_record_frame(r@),
{
    let mut body: Vec<u8> = Vec::new();
    let ghost mut fs: Seq<PbField> = Seq::empty();
    if r.index != 0 {
        push_varint_field(&mut body, 8, r.index);
        proof {
            lemma_fields_bytes_push(fs, PbField::Varint { tag: 8, value: r.index });
            fs = fs.push(PbField::Varint { tag: 8, value: r.index });
        }
    }
    if r.term != 0 {
        push_varint_field(&mut body, 16, r.term);
        proof {
            lemma_fields_bytes_push(fs, PbField::Varint { tag: 16, value: r.term });
            fs = fs.push(PbField::Varint { tag: 16, value: r.term });
        }
    }
    if r.value.len() > 0 {
        push_chunk_field(&mut body, 42, r.value.as_slice());
        proof {
            lemma_fields_bytes_push(fs, PbField::Chunk { tag: 42, data: r.value@ });
            fs = fs.push(PbField::Chunk { tag: 42, data: r.value@ });
        }
    }
    proof {
        assert(fs =~= log_record_fields(r@));
        assert(fields_bytes(Seq::<PbField>::empty()) == Seq::<u8>::empty());
    }
    let mut out: Vec<u8> = Vec::new();
    push_len_delimited(&mut out, body.as_slice());
    assert(out@ =~= log_record_frame(r@));
    out
}

/// Decodes a stored log record frame, as `BytesReader::read_message` does.
pub fn decode_log_record(frame: &[u8]) -> (r: Result<LogRecordDto, DecodeError>)
    ensures
        match log_record_decode(frame@) {
            Some(v) => r is Ok && r->Ok_0@ == v,
            None => r is Err,
        },
{
    let (start, end) = match read_frame_body(frame) {
        Some(x) => x,
        None => return Err(DecodeError::BadFrame),
    };
    let ghost body = frame@.subrange(start as int, end as int);
    assert(frame_body(frame@) == Some((start as nat, end as nat)));
    let mut acc = LogRecordDto { index: 0, term: 0, value: Vec::new() };
    let ghost mut done: Seq<PbField> = Seq::empty();
    let mut pos = start;
    while pos < end
        invariant
            start <= pos <= end <= frame@.len(),
            frame_body(frame@) == Some((start as nat, end as nat)),
            body == frame@.subrange(start as int, end as int),
            acc@ == log_record_fold(done),
            match fields_of(frame@.subrange(pos as int, end as int)) {
                Some(rest) => fields_of(body) == Some(done + rest),
                None => fields_of(body) is None,
            },
        decreases end - pos,
    {
        match next_field(frame, pos, end) {
            Ok(Some(p)) => {
                let ghost f = field_at(frame@, p);
                proof {
                    let s = frame@.subrange(pos as int, end as int);
                    lemma_fields_of_step(s, f, (p.end - pos) as nat);
                    assert(s.subrange((p.end - pos) as int, s.len() as int) == frame@.subrange(
                        p.end as int,
                        end as int,
                    ));
                    match fields_of(frame@.subrange(p.end as int, end as int)) {
                        Some(rest) => {
                            assert(done + (seq![f] + rest) == done.push(f) + rest);
                        },
                        None => {},
                    }
                    assert(done.push(f).drop_last() == done);
                }
                match p.kind {
                    FieldKind::Varint => {
                        if p.tag == 8 {
                            acc.index = p.value;
                        } else if p.tag == 16 {
                            acc.term = p.value;
                        }
                    },
                    FieldKind::Chunk => {
                        if p.tag == 42 {
                            let data = vstd::slice::slice_subrange(frame, p.start, p.start + p.len);
                            acc.value = vstd::slice::slice_to_vec(data);
                        }
                    },
                    FieldKind::Fixed => {},
                }
                proof {
                    done = done.push(f);
                }
                pos = p.end;
            },
            Ok(None) => {},
            Err(_) => {
                proof {
                    lemma_fields_of_fail(frame@.subrange(pos as int, end as int));
                }
                return Err(DecodeError::BadField);
            },
        }
    }
    proof {
        assert(frame@.subrange(end as int, end as int) =~= Seq::<u8>::empty());
        lemma_fields_of_empty(frame@.subrange(end as int, end as int));
        assert(done + Seq::<PbField>::empty() == done);
    }
    Ok(acc)
}

/// A stored log record decodes to itself: what a write stores, a read gives
/// back, for every record whose frame fits the 32-bit length prefix.
pub proof fn lemma_log_record_roundtrip(r: LogRecordView, rest: Seq<u8>)
    requires
        r.value.len() < 0x1_0000_0000 - 64,
    ensures
        log_record_decode(log_record_frame(r) + rest) == Some(r),
{
    let fs = log_record_fields(r);
    assert forall|i: int| 0 <= i < fs.len() implies field_writable(#[trigger] fs[i]) by {}
    lemma_fields_roundtrip(fs);
    let body = log_record_body(r);
    lemma_log_record_body_len(r);
    lemma_frame_roundtrip(body, rest);
    assert(log_record_frame(r) + rest == varint_bytes(body.len()) + body + rest);
    lemma_log_record_fold_fields(r);
}

pub(crate) proof fn lemma_log_record_body_len(r: LogRecordView)
    requires
        r.value.len() < 0x1_0000_0000 - 64,
    ensures
        log_record_body(r).len() < 0x1_0000_0000,
{
    let fs = log_record_fields(r);
    lemma_varint_roundtrip(8, Seq::empty());
    lemma_varint_roundtrip(16, Seq::empty());
    lemma_varint_roundtrip(42, Seq::empty());
    lemma_varint_roundtrip(r.index as nat, Seq::empty());
    lemma_varint_roundtrip(r.term as nat, Seq::empty());
    lemma_varint_roundtrip(r.value.len(), Seq::empty());
    let f1: Seq<PbField> = if r.index != 0 { seq![PbField::Varint { tag: 8, value: r.index }] } else { Seq::empty() };
    let f2: Seq<PbField> = if r.term != 0 { seq![PbField::Varint { tag: 16, value: r.term }] } else { Seq::empty() };
    let f3: Seq<PbField> = if r.value.len() > 0 { seq![PbField::Chunk { tag: 42, data: r.value }] } else { Seq::empty() };
    lemma_fields_bytes_small(f1);
    lemma_fields_bytes_small(f2);
    lemma_fields_bytes_small(f3);
    lemma_fields_bytes_append(f1, f2);
    lemma_fields_bytes_append(f1 + f2, f3);
    assert(fs == f1 + f2 + f3);
}

proof fn lemma_fields_bytes_small(fs: Seq<PbField>)
    requires
        fs.len() <= 1,
    ensures
        fs.len() == 0 ==> fields_bytes(fs) == Seq::<u8>::empty(),
        fs.len() == 1 ==> fields_bytes(fs) == field_bytes(fs[0]),
{
    assert(fields_bytes(Seq::<PbField>::empty()) == Seq::<u8>::empty());
    if fs.len() == 1 {
        assert(fs.drop_first() == Seq::<PbField>::empty());
        assert(field_bytes(fs[0]) + Seq::<u8>::empty() == field_bytes(fs[0]));
    }
}

/// The bytes of two lists of fields, one after the other.
pub proof fn lemma_fields_bytes_append(a: Seq<PbField>, b: Seq<PbField>)
    ensures
        fields_bytes(a + b) == fields_bytes(a) + fields_bytes(b),
    decreases a.len(),
{
    if a.len() == 0 {
        assert(a + b == b);
        assert(Seq::<u8>::empty() + fields_bytes(b) == fields_bytes(b));
    } else {
        lemma_fields_bytes_append(a.drop_first(), b);
        assert((a + b).drop_first() == a.drop_first() + b);
        assert((a + b)[0] == a[0]);
    }
}

proof fn lemma_log_record_fold_fields(r: LogRecordView)
    ensures
        log_record_fold(log_record_fields(r)) == r,
{
    let fs = log_record_fields(r);
    let e: Seq<PbField> = Seq::empty();
    let f1: Seq<PbField> = if r.index != 0 { seq![PbField::Varint { tag: 8, value: r.index }] } else { e };
    let f2: Seq<PbField> = if r.term != 0 { seq![PbField::Varint { tag: 16, value: r.term }] } else { e };
    let f3: Seq<PbField> = if r.value.len() > 0 { seq![PbField::Chunk { tag: 42, data: r.value }] } else { e };
    assert(fs == f1 + f2 + f3);
    let a = f1;
    let b = f1 + f2;
    let c = f1 + f2 + f3;
    assert(a.len() == 0 || a.drop_last() == e);
    assert(b.len() == a.len() || b.drop_last() == a);
    assert(c.len() == b.len() || c.drop_last() == b);
    assert(log_record_fold(e) == empty_log_record());
    if a.len() > 0 {
        assert(log_record_fold(a) == log_record_apply(log_record_fold(e), a.last()));
    } else {
        assert(a == e);
    }
    if b.len() > a.len() {
        assert(log_record_fold(b) == log_record_apply(log_record_fold(a), b.last()));
    } else {
        assert(b == a);
    }
    if c.len() > b.len() {
        assert(log_record_fold(c) == log_record_apply(log_record_fold(b), c.last()));
    } else {
        assert(c == b);
    }
    if r.value.len() == 0 {
        assert(r.value == Seq::<u8>::empty());
    }
}


/// A stored log record is at most 64 bytes longer than its value.
pub proof fn lemma_log_record_frame_len(r: LogRecordView)
    requires
        r.value.len() < 0x1_0000_0000 - 64,
    ensures
        log_record_frame(r).len() <= r.value.len() + 64,
{
    lemma_log_record_body_len_exact(r);
    lemma_varint_roundtrip(log_record_body(r).len(), Seq::empty());
}

proof fn lemma_log_record_body_len_exact(r: LogRecordView)
    requires
        r.value.len() < 0x1_0000_0000 - 64,
    ensures
        log_record_body(r).len() <= r.value.len() + 54,
{
    let fs = log_record_fields(r);
    lemma_varint_roundtrip(8, Seq::empty());
    lemma_varint_roundtrip(16, Seq::empty());
    lemma_varint_roundtrip(42, Seq::empty());
    lemma_varint_roundtrip(r.index as nat, Seq::empty());
    lemma_varint_roundtrip(r.term as nat, Seq::empty());
    lemma_varint_roundtrip(r.value.len(), Seq::empty());
    let f1: Seq<PbField> = if r.index != 0 { seq![PbField::Varint { tag: 8, value: r.index }] } else { Seq::empty() };
    let f2: Seq<PbField> = if r.term != 0 { seq![PbField::Varint { tag: 16, value: r.term }] } else { Seq::empty() };
    let f3: Seq<PbField> = if r.value.len() > 0 { seq![PbField::Chunk { tag: 42, data: r.value }] } else { Seq::empty() };
    lemma_fields_bytes_small(f1);
    lemma_fields_bytes_small(f2);
    lemma_fields_bytes_small(f3);
    lemma_fields_bytes_append(f1, f2);
    lemma_fields_bytes_append(f1 + f2, f3);
    assert(fs == f1 + f2 + f3);
}
} // verus!
