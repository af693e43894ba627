use vstd::prelude::*;
use vstd::bytes::*;
use crate::error::Error;

verus! {

// ---------------------------------------------------------------------------
// Specification of the wire format for the primitive fields: what a read at a
// given position of a byte stream yields, and what the canonical encoding of
// a value looks like.  Fixed-width integers are little-endian; the
// variable-width count ("compact size") selects a 1, 3, 5 or 9 byte form by
// a single tag byte.
// ---------------------------------------------------------------------------

pub open spec fn spec_read_u8(b: Seq<u8>, pos: int) -> Result<(u8, int), Error> {
    if 0 <= pos && pos + 1 <= b.len() {
        Ok((b[pos], pos + 1))
    } else {
        Err(Error::Truncated)
    }
}

pub open spec fn spec_read_u16(b: Seq<u8>, pos: int) -> Result<(u16, int), Error> {
    if 0 <= pos && pos + 2 <= b.len() {
        Ok((spec_u16_from_le_bytes(b.subrange(pos, pos + 2)), pos + 2))
    } else {
        Err(Error::Truncated)
    }
}

pub open spec fn spec_read_u32(b: Seq<u8>, pos: int) -> Result<(u32, int), Error> {
    if 0 <= pos && pos + 4 <= b.len() {
        Ok((spec_u32_from_le_bytes(b.subrange(pos, pos + 4)), pos + 4))
    } else {
        Err(Error::Truncated)
    }
}

pub open spec fn spec_read_u64(b: Seq<u8>, pos: int) -> Result<(u64, int), Error> {
    if 0 <= pos && pos + 8 <= b.len() {
        Ok((spec_u64_from_le_bytes(b.subrange(pos, pos + 8)), pos + 8))
    } else {
        Err(Error::Truncated)
    }
}

/// A decoder accepts any syntactically complete compact-size form, minimal or
/// not: the tag byte alone selects how many bytes follow.
pub open spec fn spec_read_compact_size(b: Seq<u8>, pos: int) -> Result<(u64, int), Error> {
    match spec_read_u8(b, pos) {
        Err(e) => Err(e),
        Ok((tag, p)) => if tag == 0xFD {
            match spec_read_u16(b, p) {
                Err(e) => Err(e),
                Ok((v, q)) => Ok((v as u64, q)),
            }
        } else if tag == 0xFE {
            match spec_read_u32(b, p) {
                Err(e) => Err(e),
                Ok((v, q)) => Ok((v as u64, q)),
            }
        } else if tag == 0xFF {
            match spec_read_u64(b, p) {
                Err(e) => Err(e),
                Ok((v, q)) => Ok((v, q)),
            }
        } else {
            Ok((tag as u64, p))
        },
    }
}

/// The canonical (minimal-length) compact-size encoding: the smallest form
/// whose range covers the value.
pub open spec fn spec_encode_compact_size(v: u64) -> Seq<u8> {
    if v <= 0xFC {
        seq![v as u8]
    } else if v <= 0xFFFF {
        seq![0xFDu8] + spec_u16_to_le_bytes(v as u16)
    } else if v <= 0xFFFFFFFF {
        seq![0xFEu8] + spec_u32_to_le_bytes(v as u32)
    } else {
        seq![0xFFu8] + spec_u64_to_le_bytes(v)
    }
}

/// A length-prefixed byte blob: a compact-size length, then exactly that many
/// raw bytes.
pub open spec fn spec_read_blob(b: Seq<u8>, pos: int) -> Result<(Seq<u8>, int), Error> {
    match spec_read_compact_size(b, pos) {
        Err(e) => Err(e),
        Ok((len, p)) => if p + len <= b.len() {
            Ok((b.subrange(p, p + len), p + len))
        } else {
            Err(Error::Truncated)
        },
    }
}

pub open spec fn spec_encode_blob(data: Seq<u8>) -> Seq<u8> {
    spec_encode_compact_size(data.len() as u64) + data
}

/// A partial read of a sequence of records, seen from the middle: the
/// records already read, composed with whatever the rest of the stream
/// yields.
pub open spec fn spec_prepend<T>(pre: Seq<T>, r: Result<(Seq<T>, int), Error>) -> Result<
    (Seq<T>, int),
    Error,
> {
    match r {
        Ok((s, p)) => Ok((pre + s, p)),
        Err(e) => Err(e),
    }
}

pub proof fn lemma_prepend_empty<T>(r: Result<(Seq<T>, int), Error>)
    ensures
        spec_prepend(Seq::empty(), r) == r,
{
    if r is Ok {
        assert(Seq::<T>::empty() + r->Ok_0.0 =~= r->Ok_0.0);
    }
}

pub proof fn lemma_prepend_done<T>(pre: Seq<T>, p: int)
    ensures
        spec_prepend(pre, Ok::<(Seq<T>, int), Error>((Seq::empty(), p))) == Ok::<
            (Seq<T>, int),
            Error,
        >((pre, p)),
{
    assert(pre + Seq::<T>::empty() =~= pre);
}

/// Reading one more record and then the rest is the same as growing the
/// prefix by that record.
pub proof fn lemma_prepend_step<T>(pre: Seq<T>, v: T, rest: Result<(Seq<T>, int), Error>)
    ensures
        spec_prepend(
            pre,
            match rest {
                Ok((s, q)) => Ok((seq![v] + s, q)),
                Err(e) => Err(e),
            },
        ) == spec_prepend(pre.push(v), rest),
{
    if rest is Ok {
        assert(pre + (seq![v] + rest->Ok_0.0) =~= pre.push(v) + rest->Ok_0.0);
    }
}

// ---------------------------------------------------------------------------
// Executable readers.  Each one either consumes the exact bytes the
// specification names and returns the value it names, or reports the same
// error; positions never run past the end of the buffer.
// ---------------------------------------------------------------------------

pub fn read_u8(data: &[u8], pos: usize) -> (r: Result<(u8, usize), Error>)
    ensures
        match r {
            Ok((v, end)) => spec_read_u8(data@, pos as int) == Ok::<(u8, int), Error>((
                v,
                end as int,
            )) && pos < end <= data@.len(),
            Err(e) => spec_read_u8(data@, pos as int) == Err::<(u8, int), Error>(e),
        },
{
    if pos < data.len() {
        Ok((data[pos], pos + 1))
    } else {
        Err(Error::Truncated)
    }
}

pub fn read_u16(data: &[u8], pos: usize) -> (r: Result<(u16, usize), Error>)
    ensures
        match r {
            Ok((v, end)) => spec_read_u16(data@, pos as int) == Ok::<(u16, int), Error>((
                v,
                end as int,
            )) && pos < end <= data@.len(),
            Err(e) => spec_read_u16(data@, pos as int) == Err::<(u16, int), Error>(e),
        },
{
    if data.len() >= 2 && pos <= data.len() - 2 {
        let v = u16_from_le_bytes(&data[pos..pos + 2]);
        Ok((v, pos + 2))
    } else {
        Err(Error::Truncated)
    }
}

/// Reads a little-endian 32-bit integer.
pub fn read_u32(data: &[u8], pos: usize) -> (r: Result<(u32, usize), Error>)
    ensures
        match r {
            Ok((v, end)) => spec_read_u32(data@, pos as int) == Ok::<(u32, int), Error>((
                v,
                end as int,
            )) && pos < end <= data@.len(),
            Err(e) => spec_read_u32(data@, pos as int) == Err::<(u32, int), Error>(e),
        },
{
    if data.len() >= 4 && pos <= data.len() - 4 {
        let v = u32_from_le_bytes(&data[pos..pos + 4]);
        Ok((v, pos + 4))
    } else {
        Err(Error::Truncated)
    }
}

pub fn read_u64(data: &[u8], pos: usize) -> (r: Result<(u64, usize), Error>)
    ensures
        match r {
            Ok((v, end)) => spec_read_u64(data@, pos as int) == Ok::<(u64, int), Error>((
                v,
                end as int,
            )) && pos < end <= data@.len(),
            Err(e) => spec_read_u64(data@, pos as int) == Err::<(u64, int), Error>(e),
        },
{
    if data.len() >= 8 && pos <= data.len() - 8 {
        let v = u64_from_le_bytes(&data[pos..pos + 8]);
        Ok((v, pos + 8))
    } else {
        Err(Error::Truncated)
    }
}

/// Reads a compact-size count, accepting any syntactically valid form.
pub fn read_compact_size(data: &[u8], pos: usize) -> (r: Result<(u64, usize), Error>)
    ensures
        match r {
            Ok((v, end)) => spec_read_compact_size(data@, pos as int) == Ok::<(u64, int), Error>((
                v,
                end as int,
            )) && pos < end <= data@.len(),
            Err(e) => spec_read_compact_size(data@, pos as int) == Err::<(u64, int), Error>(e),
        },
{
    let (tag, p) = match read_u8(data, pos) {
        Ok(x) => x,
        Err(e) => {
            return Err(e);
        },
    };
    if tag == 0xFD {
        match read_u16(data, p) {
            Ok((v, q)) => Ok((v as u64, q)),
            Err(e) => Err(e),
        }
    } else if tag == 0xFE {
        match read_u32(data, p) {
            Ok((v, q)) => Ok((v as u64, q)),
            Err(e) => Err(e),
        }
    } else if tag == 0xFF {
        match read_u64(data, p) {
            Ok((v, q)) => Ok((v, q)),
            Err(e) => Err(e),
        }
    } else {
        Ok((tag as u64, p))
    }
}

/// Reads a length-prefixed byte blob, copying the bytes out of the buffer.
pub fn read_blob(data: &[u8], pos: usize) -> (r: Result<(Vec<u8>, usize), Error>)
    ensures
        match r {
            Ok((v, end)) => spec_read_blob(data@, pos as int) == Ok::<(Seq<u8>, int), Error>((
                v@,
                end as int,
            )) && pos < end <= data@.len(),
            Err(e) => spec_read_blob(data@, pos as int) == Err::<(Seq<u8>, int), Error>(e),
        },
{
    let (len, p) = match read_compact_size(data, pos) {
        Ok(x) => x,
        Err(e) => {
            return Err(e);
        },
    };
    if len <= (data.len() - p) as u64 {
        let n = len as usize;
        let v = vstd::slice::slice_to_vec(&data[p..p + n]);
        Ok((v, p + n))
    } else {
        Err(Error::Truncated)
    }
}

// ---------------------------------------------------------------------------
// Executable writers.  Each one appends exactly the canonical encoding of its
// value to the output buffer.
// ---------------------------------------------------------------------------

pub fn push_u16(out: &mut Vec<u8>, v: u16)
    ensures
        final (out)@ == old(out)@ + spec_u16_to_le_bytes(v),
{
    let bytes = u16_to_le_bytes(v);
    out.extend_from_slice(bytes.as_slice());
}

pub fn push_u32(out: &mut Vec<u8>, v: u32)
    ensures
        final (out)@ == old(out)@ + spec_u32_to_le_bytes(v),
{
    let bytes = u32_to_le_bytes(v);
    out.extend_from_slice(bytes.as_slice());
}

pub fn push_u64(out: &mut Vec<u8>, v: u64)
    ensures
        final (out)@ == old(out)@ + spec_u64_to_le_bytes(v),
{
    let bytes = u64_to_le_bytes(v);
    out.extend_from_slice(bytes.as_slice());
}

/// Appends the canonical, minimal-length compact-size form of `v`.
pub fn push_compact_size(out: &mut Vec<u8>, v: u64)
    ensures
        final (out)@ == old(out)@ + spec_encode_compact_size(v),
{
    if v <= 0xFC {
        out.push(v as u8);
        assert(out@ =~= old(out)@ + spec_encode_compact_size(v));
    } else if v <= 0xFFFF {
        out.push(0xFD);
        push_u16(out, v as u16);
        assert(out@ =~= old(out)@ + spec_encode_compact_size(v));
    } else if v <= 0xFFFFFFFF {
        out.push(0xFE);
        push_u32(out, v as u32);
        assert(out@ =~= old(out)@ + spec_encode_compact_size(v));
    } else {
        out.push(0xFF);
        push_u64(out, v);
        assert(out@ =~= old(out)@ + spec_encode_compact_size(v));
    }
}

/// Appends a compact-size length followed by the raw bytes of `data`.
pub fn push_blob(out: &mut Vec<u8>, data: &Vec<u8>)
    ensures
        final (out)@ == old(out)@ + spec_encode_blob(data@),
{
    push_compact_size(out, data.len() as u64);
    out.extend_from_slice(data.as_slice());
    assert(out@ =~= old(out)@ + spec_encode_blob(data@));
}

// ---------------------------------------------------------------------------
// Round-trip laws for the primitive codecs.
// ---------------------------------------------------------------------------

/// Fixed-width round trip: reading back the little-endian encoding of a
/// 16/32/64-bit value yields that value and consumes exactly its width.
pub proof fn lemma_fixed_width_round_trip(v16: u16, v32: u32, v64: u64)
    ensures
        spec_read_u16(spec_u16_to_le_bytes(v16), 0) == Ok::<(u16, int), Error>((v16, 2)),
        spec_read_u32(spec_u32_to_le_bytes(v32), 0) == Ok::<(u32, int), Error>((v32, 4)),
        spec_read_u64(spec_u64_to_le_bytes(v64), 0) == Ok::<(u64, int), Error>((v64, 8)),
{
    lemma_auto_spec_u16_to_from_le_bytes();
    lemma_auto_spec_u32_to_from_le_bytes();
    lemma_auto_spec_u64_to_from_le_bytes();
    assert(spec_u16_to_le_bytes(v16).subrange(0, 2) =~= spec_u16_to_le_bytes(v16));
    assert(spec_u32_to_le_bytes(v32).subrange(0, 4) =~= spec_u32_to_le_bytes(v32));
    assert(spec_u64_to_le_bytes(v64).subrange(0, 8) =~= spec_u64_to_le_bytes(v64));
}

/// Reading a little-endian integer at `pos` of a larger buffer that carries
/// its encoding there yields the value back.
pub proof fn lemma_read_u32_of_encoding(b: Seq<u8>, pos: int, v: u32)
    requires
        0 <= pos,
        pos + 4 <= b.len(),
        b.subrange(pos, pos + 4) == spec_u32_to_le_bytes(v),
    ensures
        spec_read_u32(b, pos) == Ok::<(u32, int), Error>((v, pos + 4)),
{
    lemma_auto_spec_u32_to_from_le_bytes();
    assert(spec_u32_to_le_bytes(v).len() == 4);
}

pub proof fn lemma_read_u64_of_encoding(b: Seq<u8>, pos: int, v: u64)
    requires
        0 <= pos,
        pos + 8 <= b.len(),
        b.subrange(pos, pos + 8) == spec_u64_to_le_bytes(v),
    ensures
        spec_read_u64(b, pos) == Ok::<(u64, int), Error>((v, pos + 8)),
{
    lemma_auto_spec_u64_to_from_le_bytes();
    assert(spec_u64_to_le_bytes(v).len() == 8);
}

/// The canonical compact-size form has the minimal length its range allows.
pub proof fn lemma_compact_size_minimal(v: u64)
    ensures
        v <= 0xFC ==> spec_encode_compact_size(v).len() == 1,
        0xFD <= v <= 0xFFFF ==> spec_encode_compact_size(v).len() == 3,
        0x10000 <= v <= 0xFFFFFFFF ==> spec_encode_compact_size(v).len() == 5,
        0x100000000 <= v ==> spec_encode_compact_size(v).len() == 9,
{
    lemma_auto_spec_u16_to_from_le_bytes();
    lemma_auto_spec_u32_to_from_le_bytes();
    lemma_auto_spec_u64_to_from_le_bytes();
}

/// Compact-size round trip: at any position of a buffer that carries the
/// canonical encoding of `v` there, a read yields `v` back and consumes
/// exactly the encoding.
pub proof fn lemma_read_compact_size_of_encoding(b: Seq<u8>, pos: int, v: u64)
    requires
        0 <= pos,
        pos + spec_encode_compact_size(v).len() <= b.len(),
        b.subrange(pos, pos + spec_encode_compact_size(v).len() as int) == spec_encode_compact_size(
            v,
        ),
    ensures
        spec_read_compact_size(b, pos) == Ok::<(u64, int), Error>((
            v,
            pos + spec_encode_compact_size(v).len(),
        )),
{
    lemma_auto_spec_u16_to_from_le_bytes();
    lemma_auto_spec_u32_to_from_le_bytes();
    lemma_auto_spec_u64_to_from_le_bytes();
    let enc = spec_encode_compact_size(v);
    let s = b.subrange(pos, pos + enc.len() as int);
    assert(b[pos] == s[0]);
    if v <= 0xFC {
        assert((v as u8) as u64 == v);
        assert(b[pos] != 0xFD && b[pos] != 0xFE && b[pos] != 0xFF);
    } else if v <= 0xFFFF {
        assert(b.subrange(pos + 1, pos + 3) =~= s.subrange(1, 3));
        assert(s.subrange(1, 3) =~= spec_u16_to_le_bytes(v as u16));
        assert((v as u16) as u64 == v);
    } else if v <= 0xFFFFFFFF {
        assert(b.subrange(pos + 1, pos + 5) =~= s.subrange(1, 5));
        assert(s.subrange(1, 5) =~= spec_u32_to_le_bytes(v as u32));
        assert((v as u32) as u64 == v);
    } else {
        assert(b.subrange(pos + 1, pos + 9) =~= s.subrange(1, 9));
        assert(s.subrange(1, 9) =~= spec_u64_to_le_bytes(v));
    }
}

/// Variable-width round trip: decoding the canonical encoding of any 64-bit
/// count yields the count back, having consumed the whole encoding.
pub proof fn lemma_compact_size_round_trip(v: u64)
    ensures
        spec_read_compact_size(spec_encode_compact_size(v), 0) == Ok::<(u64, int), Error>((
            v,
            spec_encode_compact_size(v).len() as int,
        )),
{
    let enc = spec_encode_compact_size(v);
    assert(enc.subrange(0, enc.len() as int) =~= enc);
    lemma_read_compact_size_of_encoding(enc, 0, v);
}

/// Blob round trip: reading a blob from a buffer that carries the
/// length-prefixed encoding of `data` at `pos` yields `data` back.
pub proof fn lemma_read_blob_of_encoding(b: Seq<u8>, pos: int, data: Seq<u8>)
    requires
        0 <= pos,
        data.len() <= u64::MAX,
        pos + spec_encode_blob(data).len() <= b.len(),
        b.subrange(pos, pos + spec_encode_blob(data).len() as int) == spec_encode_blob(data),
    ensures
        spec_read_blob(b, pos) == Ok::<(Seq<u8>, int), Error>((
            data,
            pos + spec_encode_blob(data).len(),
        )),
{
    let len = data.len() as u64;
    let cs = spec_encode_compact_size(len);
    let enc = spec_encode_blob(data);
    let s = b.subrange(pos, pos + enc.len() as int);
    assert(enc.len() == cs.len() + data.len());
    assert(b.subrange(pos, pos + cs.len() as int) =~= s.subrange(0, cs.len() as int));
    assert(s.subrange(0, cs.len() as int) =~= cs);
    lemma_read_compact_size_of_encoding(b, pos, len);
    let p = pos + cs.len() as int;
    assert(b.subrange(p, p + len as int) =~= s.subrange(cs.len() as int, enc.len() as int));
    assert(s.subrange(cs.len() as int, enc.len() as int) =~= data);
}

} // verus!
