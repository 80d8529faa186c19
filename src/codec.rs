//! The binary format of a constant pool: an eight-byte big-endian count,
//! then one tagged record per value.
use crate::be::{i32_from_be, i32_to_be, u64_from_be, u64_to_be};
use crate::value::{
    pool_view, register, value_type_id, values_view, Object, ObjectModel, ObjectPool, Value,
    ValueModel,
};
use vstd::prelude::*;
use vstd::utf8::{decode_utf8, encode_utf8, valid_utf8};

verus! {

/// A byte string preceded by its length as eight big-endian bytes.
pub open spec fn encode_blob(b: Seq<u8>) -> Seq<u8> {
    u64_to_be(b.len() as u64) + b
}

/// The payload that follows an object's tag.
pub open spec fn encode_object(o: ObjectModel) -> Seq<u8> {
    match o {
        ObjectModel::Str(s) => encode_blob(encode_utf8(s)),
        ObjectModel::Function { identifier, param_count, code } => encode_blob(
            encode_utf8(identifier),
        ) + seq![param_count] + encode_blob(code),
    }
}

/// The payload that follows a value's tag.
pub open spec fn encode_payload(v: ValueModel) -> Seq<u8> {
    match v {
        ValueModel::Int(i) => i32_to_be(i),
        ValueModel::Bool(b) => seq![if b { 1u8 } else { 0u8 }],
        ValueModel::Object(o) => encode_object(o),
    }
}

/// One value record: the tag, then the payload.
pub open spec fn encode_value(v: ValueModel) -> Seq<u8> {
    seq![value_type_id(v)] + encode_payload(v)
}

/// The records of `vs`, one after another, in order.
pub open spec fn encode_records(vs: Seq<ValueModel>) -> Seq<u8>
    decreases vs.len(),
{
    if vs.len() == 0 {
        Seq::empty()
    } else {
        encode_records(vs.drop_last()) + encode_value(vs.last())
    }
}

/// A whole file: the count of values, then their records.
pub open spec fn encode_values(vs: Seq<ValueModel>) -> Seq<u8> {
    u64_to_be(vs.len() as u64) + encode_records(vs)
}

/// Every length in `o` fits the eight-byte length fields.
pub open spec fn object_fits(o: ObjectModel) -> bool {
    match o {
        ObjectModel::Str(s) => encode_utf8(s).len() <= u64::MAX,
        ObjectModel::Function { identifier, code, .. } => encode_utf8(identifier).len()
            <= u64::MAX && code.len() <= u64::MAX,
    }
}

/// Every length in `v` fits the eight-byte length fields.
pub open spec fn value_fits(v: ValueModel) -> bool {
    match v {
        ValueModel::Object(o) => object_fits(o),
        _ => true,
    }
}

/// Every length in `vs`, and its count, fits the eight-byte fields.
pub open spec fn values_fit(vs: Seq<ValueModel>) -> bool {
    &&& vs.len() <= u64::MAX
    &&& forall|i: int| 0 <= i < vs.len() ==> #[trigger] value_fits(vs[i])
}

/// Appends the big-endian form of `n`.
fn write_u64(out: &mut Vec<u8>, n: u64)
    ensures
        final(out)@ == old(out)@ + u64_to_be(n),
{
    out.push((n >> 56u64) as u8);
    out.push((n >> 48u64) as u8);
    out.push((n >> 40u64) as u8);
    out.push((n >> 32u64) as u8);
    out.push((n >> 24u64) as u8);
    out.push((n >> 16u64) as u8);
    out.push((n >> 8u64) as u8);
    out.push(n as u8);
    assert(out@ =~= old(out)@ + u64_to_be(n));
}

/// Appends `bytes` preceded by their count.
fn write_bytes(out: &mut Vec<u8>, bytes: &[u8])
    ensures
        final(out)@ == old(out)@ + encode_blob(bytes@),
{
    write_u64(out, bytes.len() as u64);
    let mut i: usize = 0;
    while i < bytes.len()
        invariant
            i <= bytes@.len(),
            out@ == old(out)@ + u64_to_be(bytes@.len() as u64) + bytes@.subrange(0, i as int),
        decreases bytes@.len() - i,
    {
        out.push(bytes[i]);
        i = i + 1;
        assert(out@ =~= old(out)@ + u64_to_be(bytes@.len() as u64) + bytes@.subrange(0, i as int));
    }
    assert(bytes@.subrange(0, i as int) =~= bytes@);
    assert(out@ =~= old(out)@ + encode_blob(bytes@));
}

/// Appends the UTF-8 bytes of `s` preceded by their count.
pub fn write_string(out: &mut Vec<u8>, s: &String)
    ensures
        final(out)@ == old(out)@ + encode_blob(encode_utf8(s@)),
{
    write_bytes(out, s.as_str().as_bytes());
}

impl Object {
    /// Appends this object's payload, the part of its record after the tag.
    pub fn write(&self, out: &mut Vec<u8>)
        ensures
            final(out)@ == old(out)@ + encode_object(self@),
    {
        match self {
            Object::String(s) => write_string(out, s),
            Object::Function { identifier, param_count, code } => {
                write_string(out, identifier);
                out.push(*param_count);
                write_bytes(out, code.as_slice());
                assert(out@ =~= old(out)@ + encode_object(self@));
            },
        }
    }
}

impl Value {
    /// Appends this value's record: its tag, then its payload.
    pub fn write(&self, out: &mut Vec<u8>)
        ensures
            final(out)@ == old(out)@ + encode_value(self@),
    {
        let tag = self.to_type_id();
        out.push(tag);
        match self {
            Value::Int(i) => {
                let u = *i as u32;
                out.push((u >> 24u32) as u8);
                out.push((u >> 16u32) as u8);
                out.push((u >> 8u32) as u8);
                out.push(u as u8);
            },
            Value::Bool(b) => out.push(if *b { 1u8 } else { 0u8 }),
            Value::Object(o) => o.write(out),
        }
        assert(out@ =~= old(out)@ + encode_value(self@));
    }
}

/// Appends a whole file for `values`: their count, then each record in
/// order. Returns the count written.
pub fn write_values(out: &mut Vec<u8>, values: &[Value]) -> (r: usize)
    ensures
        final(out)@ == old(out)@ + encode_values(values_view(values@)),
        r == values@.len(),
{
    write_u64(out, values.len() as u64);
    let ghost start = out@;
    let mut i: usize = 0;
    while i < values.len()
        invariant
            i <= values@.len(),
            out@ == start + encode_records(values_view(values@.subrange(0, i as int))),
        decreases values@.len() - i,
    {
        values[i].write(out);
        let ghost done = values_view(values@.subrange(0, i as int));
        i = i + 1;
        let ghost next = values_view(values@.subrange(0, i as int));
        assert(next.drop_last() =~= done);
        assert(out@ =~= start + encode_records(next));
    }
    assert(values@.subrange(0, i as int) =~= values@);
    values.len()
}

/// Why a byte string is not a constant pool.
#[derive(Debug, Clone, Copy, PartialEq, Eq, Structural)]
pub enum DecodeError {
    /// A fixed-size field or a length-prefixed span runs past the end.
    UnexpectedEnd,
    /// A record's tag names no kind of value.
    UnknownTag(u8),
    /// A text span is not valid UTF-8.
    InvalidUtf8,
}

/// The byte at `pos`.
pub open spec fn parse_u8(b: Seq<u8>, pos: int) -> Result<(u8, int), DecodeError> {
    if 0 <= pos < b.len() {
        Ok((b[pos], pos + 1))
    } else {
        Err(DecodeError::UnexpectedEnd)
    }
}

/// The big-endian unsigned integer in the eight bytes at `pos`.
pub open spec fn parse_u64(b: Seq<u8>, pos: int) -> Result<(u64, int), DecodeError> {
    if 0 <= pos && pos + 8 <= b.len() {
        Ok((u64_from_be(b.subrange(pos, pos + 8)), pos + 8))
    } else {
        Err(DecodeError::UnexpectedEnd)
    }
}

/// The big-endian signed integer in the four bytes at `pos`.
pub open spec fn parse_i32(b: Seq<u8>, pos: int) -> Result<(i32, int), DecodeError> {
    if 0 <= pos && pos + 4 <= b.len() {
        Ok((i32_from_be(b.subrange(pos, pos + 4)), pos + 4))
    } else {
        Err(DecodeError::UnexpectedEnd)
    }
}

/// The length-prefixed byte string at `pos`.
pub open spec fn parse_blob(b: Seq<u8>, pos: int) -> Result<(Seq<u8>, int), DecodeError> {
    match parse_u64(b, pos) {
        Ok((n, p)) => if p + n <= b.len() {
            Ok((b.subrange(p, p + n), p + n))
        } else {
            Err(DecodeError::UnexpectedEnd)
        },
        Err(e) => Err(e),
    }
}

/// The length-prefixed UTF-8 text at `pos`.
pub open spec fn parse_text(b: Seq<u8>, pos: int) -> Result<(Seq<char>, int), DecodeError> {
    match parse_blob(b, pos) {
        Ok((bytes, p)) => if valid_utf8(bytes) {
            Ok((decode_utf8(bytes), p))
        } else {
            Err(DecodeError::InvalidUtf8)
        },
        Err(e) => Err(e),
    }
}

/// The payload at `pos` of an object record tagged `tag`.
pub open spec fn parse_object(b: Seq<u8>, pos: int, tag: u8) -> Result<(ObjectModel, int), DecodeError> {
    if tag == 2 {
        match parse_text(b, pos) {
            Ok((s, p)) => Ok((ObjectModel::Str(s), p)),
            Err(e) => Err(e),
        }
    } else if tag == 3 {
        match parse_text(b, pos) {
            Ok((identifier, p1)) => match parse_u8(b, p1) {
                Ok((param_count, p2)) => match parse_blob(b, p2) {
                    Ok((code, p3)) => Ok(
                        (ObjectModel::Function { identifier, param_count, code }, p3),
                    ),
                    Err(e) => Err(e),
                },
                Err(e) => Err(e),
            },
            Err(e) => Err(e),
        }
    } else {
        Err(DecodeError::UnknownTag(tag))
    }
}

/// The payload at `pos` of a record tagged `tag`. A boolean is true
/// exactly when its byte is 1.
pub open spec fn parse_value(b: Seq<u8>, pos: int, tag: u8) -> Result<(ValueModel, int), DecodeError> {
    if tag == 0 {
        match parse_i32(b, pos) {
            Ok((i, p)) => Ok((ValueModel::Int(i), p)),
            Err(e) => Err(e),
        }
    } else if tag == 1 {
        match parse_u8(b, pos) {
            Ok((x, p)) => Ok((ValueModel::Bool(x == 1), p)),
            Err(e) => Err(e),
        }
    } else {
        match parse_object(b, pos, tag) {
            Ok((o, p)) => Ok((ValueModel::Object(o), p)),
            Err(e) => Err(e),
        }
    }
}

/// The whole record, tag and payload, at `pos`.
pub open spec fn parse_record(b: Seq<u8>, pos: int) -> Result<(ValueModel, int), DecodeError> {
    match parse_u8(b, pos) {
        Ok((tag, p)) => parse_value(b, p, tag),
        Err(e) => Err(e),
    }
}

/// `n` records read one after another from `pos`.
pub open spec fn parse_records(b: Seq<u8>, pos: int, n: nat) -> Result<(Seq<ValueModel>, int), DecodeError>
    decreases n,
{
    if n == 0 {
        Ok((Seq::empty(), pos))
    } else {
        match parse_records(b, pos, (n - 1) as nat) {
            Ok((vs, p)) => match parse_record(b, p) {
                Ok((v, q)) => Ok((vs.push(v), q)),
                Err(e) => Err(e),
            },
            Err(e) => Err(e),
        }
    }
}

/// The values of a file: as many records as its count says, read after the
/// count. Bytes after the last record are not looked at.
pub open spec fn parse_values(b: Seq<u8>) -> Result<Seq<ValueModel>, DecodeError> {
    match parse_u64(b, 0) {
        Ok((n, p)) => match parse_records(b, p, n as nat) {
            Ok((vs, _)) => Ok(vs),
            Err(e) => Err(e),
        },
        Err(e) => Err(e),
    }
}

/// The objects that `v` holds: one for an object value, none for a scalar.
pub open spec fn objects_in(v: ValueModel) -> Seq<ObjectModel> {
    match v {
        ValueModel::Object(o) => seq![o],
        _ => Seq::empty(),
    }
}

/// The objects held by `vs`, in order.
pub open spec fn objects_of(vs: Seq<ValueModel>) -> Seq<ObjectModel>
    decreases vs.len(),
{
    if vs.len() == 0 {
        Seq::empty()
    } else {
        objects_of(vs.drop_last()) + objects_in(vs.last())
    }
}

/// Once a run of records fails, reading more of them fails the same way.
pub proof fn lemma_parse_records_err_persists(b: Seq<u8>, pos: int, m: nat, n: nat, e: DecodeError)
    requires
        m <= n,
        parse_records(b, pos, m) == Err::<(Seq<ValueModel>, int), DecodeError>(e),
    ensures
        parse_records(b, pos, n) == Err::<(Seq<ValueModel>, int), DecodeError>(e),
    decreases n,
{
    if m < n {
        lemma_parse_records_err_persists(b, pos, m, (n - 1) as nat, e);
    }
}

/// Relies on std's `String::from_utf8`: it succeeds exactly on valid UTF-8
/// and then holds the text those bytes encode.
#[verifier::external_body]
fn string_from_utf8(bytes: Vec<u8>) -> (r: Option<String>)
    ensures
        r is Some <==> valid_utf8(bytes@),
        r matches Some(s) ==> s@ == decode_utf8(bytes@),
{
    String::from_utf8(bytes).ok()
}

/// Reads the byte at `pos`; returns it with the position after it.
pub fn read_u8(b: &[u8], pos: usize) -> (r: Result<(u8, usize), DecodeError>)
    ensures
        match r {
            Ok((x, p)) => parse_u8(b@, pos as int) == Ok::<(u8, int), DecodeError>((x, p as int)),
            Err(e) => parse_u8(b@, pos as int) == Err::<(u8, int), DecodeError>(e),
        },
{
    if pos < b.len() {
        Ok((b[pos], pos + 1))
    } else {
        Err(DecodeError::UnexpectedEnd)
    }
}

/// Reads the eight-byte big-endian unsigned integer at `pos`.
pub fn read_usize(b: &[u8], pos: usize) -> (r: Result<(u64, usize), DecodeError>)
    ensures
        match r {
            Ok((x, p)) => parse_u64(b@, pos as int) == Ok::<(u64, int), DecodeError>((x, p as int)),
            Err(e) => parse_u64(b@, pos as int) == Err::<(u64, int), DecodeError>(e),
        },
{
    if pos > b.len() || b.len() - pos < 8 {
        return Err(DecodeError::UnexpectedEnd);
    }
    let x = ((b[pos] as u64) << 56u64) | ((b[pos + 1] as u64) << 48u64) | ((b[pos + 2] as u64)
        << 40u64) | ((b[pos + 3] as u64) << 32u64) | ((b[pos + 4] as u64) << 24u64) | ((b[pos
        + 5] as u64) << 16u64) | ((b[pos + 6] as u64) << 8u64) | (b[pos + 7] as u64);
    assert(x == u64_from_be(b@.subrange(pos as int, pos + 8)));
    Ok((x, pos + 8))
}

/// Reads the four-byte big-endian signed integer at `pos`.
pub fn read_i32(b: &[u8], pos: usize) -> (r: Result<(i32, usize), DecodeError>)
    ensures
        match r {
            Ok((x, p)) => parse_i32(b@, pos as int) == Ok::<(i32, int), DecodeError>((x, p as int)),
            Err(e) => parse_i32(b@, pos as int) == Err::<(i32, int), DecodeError>(e),
        },
{
    if pos > b.len() || b.len() - pos < 4 {
        return Err(DecodeError::UnexpectedEnd);
    }
    let u = ((b[pos] as u32) << 24u32) | ((b[pos + 1] as u32) << 16u32) | ((b[pos + 2] as u32)
        << 8u32) | (b[pos + 3] as u32);
    assert(u as i32 == i32_from_be(b@.subrange(pos as int, pos + 4)));
    Ok((u as i32, pos + 4))
}

/// Reads the length-prefixed byte string at `pos`.
pub fn read_bytes(b: &[u8], pos: usize) -> (r: Result<(Vec<u8>, usize), DecodeError>)
    ensures
        match r {
            Ok((x, p)) => parse_blob(b@, pos as int) == Ok::<(Seq<u8>, int), DecodeError>(
                (x@, p as int),
            ),
            Err(e) => parse_blob(b@, pos as int) == Err::<(Seq<u8>, int), DecodeError>(e),
        },
{
    let (size, p) = read_usize(b, pos)?;
    if size > (b.len() - p) as u64 {
        return Err(DecodeError::UnexpectedEnd);
    }
    let end = p + size as usize;
    let bytes = vstd::slice::slice_to_vec(vstd::slice::slice_subrange(b, p, end));
    Ok((bytes, end))
}

/// Reads the length-prefixed UTF-8 text at `pos`.
pub fn read_string(b: &[u8], pos: usize) -> (r: Result<(String, usize), DecodeError>)
    ensures
        match r {
            Ok((x, p)) => parse_text(b@, pos as int) == Ok::<(Seq<char>, int), DecodeError>(
                (x@, p as int),
            ),
            Err(e) => parse_text(b@, pos as int) == Err::<(Seq<char>, int), DecodeError>(e),
        },
{
    let (bytes, p) = read_bytes(b, pos)?;
    match string_from_utf8(bytes) {
        Some(s) => Ok((s, p)),
        None => Err(DecodeError::InvalidUtf8),
    }
}

impl Object {
    /// Reads the payload at `pos` of an object record tagged `byte_id`,
    /// registers the new object in `pool`, and returns a value sharing it
    /// with the position after the payload. The pool is left as it was on
    /// failure.
    pub fn read(b: &[u8], pos: usize, byte_id: u8, pool: &mut ObjectPool) -> (r: Result<
        (Value, usize),
        DecodeError,
    >)
        ensures
            match r {
                Ok((v, p)) => parse_object(b@, pos as int, byte_id) matches Ok((o, q)) && v@
                    == ValueModel::Object(o) && q == p as int && pool_view(final(pool)@)
                    == pool_view(old(pool)@).push(o),
                Err(e) => parse_object(b@, pos as int, byte_id) == Err::<
                    (ObjectModel, int),
                    DecodeError,
                >(e) && final(pool)@ == old(pool)@,
            },
    {
        if byte_id == 2 {
            let (s, p) = read_string(b, pos)?;
            Ok((register(Object::String(s), pool), p))
        } else if byte_id == 3 {
            let (identifier, p1) = read_string(b, pos)?;
            let (param_count, p2) = read_u8(b, p1)?;
            let (code, p3) = read_bytes(b, p2)?;
            Ok((register(Object::Function { identifier, param_count, code }, pool), p3))
        } else {
            Err(DecodeError::UnknownTag(byte_id))
        }
    }
}

impl Value {
    /// Reads the payload at `pos` of a record tagged `byte_id`. An object
    /// it holds is registered in `pool`; the pool is left as it was on
    /// failure.
    pub fn read(b: &[u8], pos: usize, byte_id: u8, pool: &mut ObjectPool) -> (r: Result<
        (Value, usize),
        DecodeError,
    >)
        ensures
            match r {
                Ok((v, p)) => parse_value(b@, pos as int, byte_id) == Ok::<
                    (ValueModel, int),
                    DecodeError,
                >((v@, p as int)) && pool_view(final(pool)@) == pool_view(old(pool)@)
                    + objects_in(v@),
                Err(e) => parse_value(b@, pos as int, byte_id) == Err::<
                    (ValueModel, int),
                    DecodeError,
                >(e) && final(pool)@ == old(pool)@,
            },
    {
        if byte_id == 0 {
            let (i, p) = read_i32(b, pos)?;
            assert(pool_view(pool@) =~= pool_view(old(pool)@) + objects_in(ValueModel::Int(i)));
            Ok((Value::Int(i), p))
        } else if byte_id == 1 {
            let (x, p) = read_u8(b, pos)?;
            assert(pool_view(pool@) =~= pool_view(old(pool)@) + objects_in(
                ValueModel::Bool(x == 1),
            ));
            Ok((Value::Bool(x == 1), p))
        } else {
            let r = Object::read(b, pos, byte_id, pool);
            match r {
                Ok((v, p)) => {
                    assert(pool_view(pool@) =~= pool_view(old(pool)@) + objects_in(v@));
                    Ok((v, p))
                },
                Err(e) => Err(e),
            }
        }
    }
}

/// Reads a whole file: its count, then that many records. Each object read
/// is appended to `pool`, in the order the records come. On failure the
/// objects of the records read before it stay in the pool.
pub fn read_values(b: &[u8], pool: &mut ObjectPool) -> (r: Result<Vec<Value>, DecodeError>)
    ensures
        match r {
            Ok(vs) => parse_values(b@) == Ok::<Seq<ValueModel>, DecodeError>(values_view(vs@))
                && pool_view(final(pool)@) == pool_view(old(pool)@) + objects_of(
                values_view(vs@),
            ),
            Err(e) => parse_values(b@) == Err::<Seq<ValueModel>, DecodeError>(e) && pool_view(
                old(pool)@,
            ).is_prefix_of(pool_view(final(pool)@)),
        },
{
    let (count, start) = read_usize(b, 0)?;
    let mut values: Vec<Value> = Vec::new();
    let mut pos = start;
    let mut i: u64 = 0;
    assert(values_view(values@) =~= Seq::<ValueModel>::empty());
    assert(pool_view(pool@) =~= pool_view(old(pool)@) + objects_of(values_view(values@)));
    while i < count
        invariant
            i <= count,
            parse_u64(b@, 0) == Ok::<(u64, int), DecodeError>((count, start as int)),
            parse_records(b@, start as int, i as nat) == Ok::<(Seq<ValueModel>, int), DecodeError>(
                (values_view(values@), pos as int),
            ),
            pool_view(pool@) == pool_view(old(pool)@) + objects_of(values_view(values@)),
        decreases count - i,
    {
        let tag_read = read_u8(b, pos);
        let (tag, p) = match tag_read {
            Ok(x) => x,
            Err(e) => {
                proof {
                    lemma_parse_records_err_persists(b@, start as int, (i + 1) as nat, count as nat, e);
                    assert(pool_view(old(pool)@).is_prefix_of(pool_view(pool@)));
                }
                return Err(e);
            },
        };
        let value_read = Value::read(b, p, tag, pool);
        let (v, q) = match value_read {
            Ok(x) => x,
            Err(e) => {
                proof {
                    lemma_parse_records_err_persists(b@, start as int, (i + 1) as nat, count as nat, e);
                    assert(pool_view(old(pool)@).is_prefix_of(pool_view(pool@)));
                }
                return Err(e);
            },
        };
        let ghost prev = values_view(values@);
        values.push(v);
        assert(values_view(values@) =~= prev.push(v@));
        assert(values_view(values@).drop_last() =~= prev);
        assert(parse_record(b@, pos as int) == Ok::<(ValueModel, int), DecodeError>((v@, q as int)));
        assert(parse_records(b@, start as int, (i + 1) as nat) == Ok::<
            (Seq<ValueModel>, int),
            DecodeError,
        >((values_view(values@), q as int)));
        assert(pool_view(pool@) =~= pool_view(old(pool)@) + objects_of(values_view(values@)));
        pos = q;
        i = i + 1;
    }
    Ok(values)
}

} // verus!
