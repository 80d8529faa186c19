//! What holds of writing and then reading a constant pool.
use crate::be::{lemma_i32_be_round_trip, lemma_u64_be_round_trip, u64_to_be};
use crate::codec::{
    encode_blob, encode_object, encode_payload, encode_records, encode_value, encode_values,
    object_fits, parse_blob, parse_object, parse_record, parse_records, parse_text, parse_u64,
    parse_u8, parse_value, parse_values, value_fits, values_fit, DecodeError,
};
use crate::value::{value_type_id, ObjectModel, ValueModel};
use vstd::prelude::*;
use vstd::utf8::{encode_utf8, encode_utf8_decode_utf8, encode_utf8_valid_utf8};

verus! {

/// `e` stands in `b` from `pos` on.
pub open spec fn occurs_at(b: Seq<u8>, pos: int, e: Seq<u8>) -> bool {
    &&& 0 <= pos
    &&& pos + e.len() <= b.len()
    &&& b.subrange(pos, pos + e.len()) == e
}

proof fn lemma_occurs_split(b: Seq<u8>, pos: int, e1: Seq<u8>, e2: Seq<u8>)
    requires
        occurs_at(b, pos, e1 + e2),
    ensures
        occurs_at(b, pos, e1),
        occurs_at(b, pos + e1.len(), e2),
{
    let whole = b.subrange(pos, pos + (e1 + e2).len());
    assert(b.subrange(pos, pos + e1.len()) =~= whole.subrange(0, e1.len() as int));
    assert(whole.subrange(0, e1.len() as int) =~= e1);
    assert(b.subrange(pos + e1.len(), pos + e1.len() + e2.len()) =~= whole.subrange(
        e1.len() as int,
        (e1.len() + e2.len()) as int,
    ));
    assert(whole.subrange(e1.len() as int, (e1.len() + e2.len()) as int) =~= e2);
}

proof fn lemma_parse_u64_of(b: Seq<u8>, pos: int, n: u64)
    requires
        occurs_at(b, pos, u64_to_be(n)),
    ensures
        parse_u64(b, pos) == Ok::<(u64, int), DecodeError>((n, pos + 8)),
{
    lemma_u64_be_round_trip(n);
}

proof fn lemma_parse_blob_of(b: Seq<u8>, pos: int, x: Seq<u8>)
    requires
        x.len() <= u64::MAX,
        occurs_at(b, pos, encode_blob(x)),
    ensures
        parse_blob(b, pos) == Ok::<(Seq<u8>, int), DecodeError>((x, pos + 8 + x.len())),
{
    lemma_occurs_split(b, pos, u64_to_be(x.len() as u64), x);
    lemma_parse_u64_of(b, pos, x.len() as u64);
}

proof fn lemma_parse_text_of(b: Seq<u8>, pos: int, s: Seq<char>)
    requires
        encode_utf8(s).len() <= u64::MAX,
        occurs_at(b, pos, encode_blob(encode_utf8(s))),
    ensures
        parse_text(b, pos) == Ok::<(Seq<char>, int), DecodeError>(
            (s, pos + 8 + encode_utf8(s).len()),
        ),
{
    lemma_parse_blob_of(b, pos, encode_utf8(s));
    encode_utf8_valid_utf8(s);
    encode_utf8_decode_utf8(s);
}

proof fn lemma_parse_object_of(b: Seq<u8>, pos: int, o: ObjectModel)
    requires
        object_fits(o),
        occurs_at(b, pos, encode_object(o)),
    ensures
        parse_object(b, pos, value_type_id(ValueModel::Object(o))) == Ok::<
            (ObjectModel, int),
            DecodeError,
        >((o, pos + encode_object(o).len())),
{
    match o {
        ObjectModel::Str(s) => {
            lemma_parse_text_of(b, pos, s);
        },
        ObjectModel::Function { identifier, param_count, code } => {
            let e1 = encode_blob(encode_utf8(identifier));
            let e2 = seq![param_count];
            let e3 = encode_blob(code);
            assert(encode_object(o) == e1 + e2 + e3);
            lemma_occurs_split(b, pos, e1 + e2, e3);
            lemma_occurs_split(b, pos, e1, e2);
            lemma_parse_text_of(b, pos, identifier);
            let p1 = pos + e1.len();
            assert(b[p1] == b.subrange(p1, p1 + 1)[0]);
            assert(parse_u8(b, p1) == Ok::<(u8, int), DecodeError>((param_count, p1 + 1)));
            lemma_parse_blob_of(b, p1 + 1, code);
        },
    }
}

/// The tag that the write path puts before a value's payload leads the read
/// path to the same kind of value, and back to the value itself.
pub proof fn lemma_tag_dispatch(b: Seq<u8>, pos: int, v: ValueModel)
    requires
        value_fits(v),
        occurs_at(b, pos, encode_payload(v)),
    ensures
        value_type_id(v) <= 3,
        parse_value(b, pos, value_type_id(v)) == Ok::<(ValueModel, int), DecodeError>(
            (v, pos + encode_payload(v).len()),
        ),
{
    match v {
        ValueModel::Int(i) => {
            lemma_i32_be_round_trip(i);
        },
        ValueModel::Bool(x) => {
            assert(b[pos] == b.subrange(pos, pos + 1)[0]);
        },
        ValueModel::Object(o) => {
            lemma_parse_object_of(b, pos, o);
        },
    }
}

proof fn lemma_parse_record_of(b: Seq<u8>, pos: int, v: ValueModel)
    requires
        value_fits(v),
        occurs_at(b, pos, encode_value(v)),
    ensures
        parse_record(b, pos) == Ok::<(ValueModel, int), DecodeError>(
            (v, pos + encode_value(v).len()),
        ),
{
    lemma_occurs_split(b, pos, seq![value_type_id(v)], encode_payload(v));
    assert(b[pos] == b.subrange(pos, pos + 1)[0]);
    lemma_tag_dispatch(b, pos + 1, v);
}

proof fn lemma_parse_records_of(b: Seq<u8>, pos: int, vs: Seq<ValueModel>)
    requires
        forall|i: int| 0 <= i < vs.len() ==> #[trigger] value_fits(vs[i]),
        occurs_at(b, pos, encode_records(vs)),
    ensures
        parse_records(b, pos, vs.len()) == Ok::<(Seq<ValueModel>, int), DecodeError>(
            (vs, pos + encode_records(vs).len()),
        ),
    decreases vs.len(),
{
    if vs.len() > 0 {
        let front = vs.drop_last();
        lemma_occurs_split(b, pos, encode_records(front), encode_value(vs.last()));
        assert forall|i: int| 0 <= i < front.len() implies #[trigger] value_fits(front[i]) by {
            assert(front[i] == vs[i]);
        }
        lemma_parse_records_of(b, pos, front);
        assert(value_fits(vs[vs.len() - 1]));
        lemma_parse_record_of(b, pos + encode_records(front).len(), vs.last());
        assert(front.push(vs.last()) =~= vs);
        assert((vs.len() - 1) as nat == front.len());
    } else {
        assert(vs =~= Seq::<ValueModel>::empty());
    }
}

/// The count at the head of a file is the number of records that follow,
/// and the reader takes exactly that many: it ends where the last one ends,
/// whatever comes after.
pub proof fn lemma_count_fidelity(vs: Seq<ValueModel>, rest: Seq<u8>)
    requires
        values_fit(vs),
    ensures
        encode_values(vs) == u64_to_be(vs.len() as u64) + encode_records(vs),
        parse_u64(encode_values(vs) + rest, 0) == Ok::<(u64, int), DecodeError>(
            (vs.len() as u64, 8),
        ),
        parse_records(encode_values(vs) + rest, 8, vs.len()) == Ok::<
            (Seq<ValueModel>, int),
            DecodeError,
        >((vs, encode_values(vs).len() as int)),
{
    let b = encode_values(vs) + rest;
    let head = u64_to_be(vs.len() as u64);
    let body = encode_records(vs);
    assert(b.subrange(0, 8) =~= head);
    assert(b.subrange(8, 8 + body.len() as int) =~= body);
    lemma_parse_u64_of(b, 0, vs.len() as u64);
    lemma_parse_records_of(b, 8, vs);
}

/// Reading what was written gives back the same values, in order, whatever
/// bytes follow.
pub proof fn lemma_round_trip(vs: Seq<ValueModel>, rest: Seq<u8>)
    requires
        values_fit(vs),
    ensures
        parse_values(encode_values(vs) + rest) == Ok::<Seq<ValueModel>, DecodeError>(vs),
{
    lemma_count_fidelity(vs, rest);
    assert(vs.len() as u64 as nat == vs.len());
}

} // verus!
