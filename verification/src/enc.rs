//! The document encoder: verified functions that append the exact wire image
//! of a value, as defined in `wire`, to an outbound byte buffer.

use vstd::prelude::*;
use vstd::bytes::{u32_to_le_bytes, u64_to_le_bytes, spec_u32_to_le_bytes, spec_u64_to_le_bytes};
use crate::model::{BatchView, BsonScalar, CodecError, MongotCursorBatch, ResultType, ResultView,
    Uuid, VectorSearchCommand, command_wf};
use crate::wire::{max_doc_len, el_head, lp_bytes, el_str, el_i32, el_i64, el_bool, el_null,
    el_uuid, el_scalar, el_doc, doc_bytes, dec_key, qv_body, qv_body_from, result_body,
    results_body, results_body_from, cursor_body, batch_body, batch_bytes, batch_fits,
    command_body, command_bytes, command_fits, key_vector_search, key_db,
    key_collection_uuid, key_path, key_query_vector, key_index, key_limit, key_num_candidates,
    key_ok, key_errmsg, key_cursor, key_explain, key_vars, key_id, key_next_batch, key_ns,
    key_type_name, key_results_name, key_meta_name, key_result_id, kb_cursor, kb_next_batch,
    kb_result_id};

verus! {

fn push_le_u32(out: &mut Vec<u8>, x: u32)
    ensures
        final(out)@ == old(out)@ + spec_u32_to_le_bytes(x),
{
    let mut b = u32_to_le_bytes(x);
    out.append(&mut b);
}

fn push_le_u64(out: &mut Vec<u8>, x: u64)
    ensures
        final(out)@ == old(out)@ + spec_u64_to_le_bytes(x),
{
    let mut b = u64_to_le_bytes(x);
    out.append(&mut b);
}

fn push_head(out: &mut Vec<u8>, tag: u8, key: &[u8])
    ensures
        final(out)@ == old(out)@ + el_head(tag, key@),
{
    out.push(tag);
    out.extend_from_slice(key);
    out.push(0);
    proof {
        assert(out@ =~= old(out)@ + el_head(tag, key@));
    }
}

fn push_lp(out: &mut Vec<u8>, b: &[u8])
    requires
        b@.len() + 1 <= max_doc_len(),
    ensures
        final(out)@ == old(out)@ + lp_bytes(b@),
{
    let n = b.len();
    push_le_u32(out, (n + 1) as u32);
    out.extend_from_slice(b);
    out.push(0);
    proof {
        assert(out@ =~= old(out)@ + lp_bytes(b@));
    }
}

fn push_str_el(out: &mut Vec<u8>, key: &[u8], s: &String) -> (r: bool)
    ensures
        r ==> final(out)@ == old(out)@ + el_str(key@, s@),
        !r ==> final(out)@ == old(out)@ && el_str(key@, s@).len() > max_doc_len(),
{
    let bs = s.as_str().as_bytes();
    if bs.len() >= 0x7FFF_FFFF {
        return false;
    }
    push_head(out, 2, key);
    push_lp(out, bs);
    proof {
        assert(out@ =~= old(out)@ + el_str(key@, s@));
    }
    true
}

fn push_i32_el(out: &mut Vec<u8>, key: &[u8], v: i32)
    ensures
        final(out)@ == old(out)@ + el_i32(key@, v),
{
    push_head(out, 16, key);
    push_le_u32(out, v as u32);
    proof {
        assert(out@ =~= old(out)@ + el_i32(key@, v));
    }
}

fn push_i64_el(out: &mut Vec<u8>, key: &[u8], v: i64)
    ensures
        final(out)@ == old(out)@ + el_i64(key@, v),
{
    push_head(out, 18, key);
    push_le_u64(out, v as u64);
    proof {
        assert(out@ =~= old(out)@ + el_i64(key@, v));
    }
}

fn push_bool_el(out: &mut Vec<u8>, key: &[u8], b: bool)
    ensures
        final(out)@ == old(out)@ + el_bool(key@, b),
{
    push_head(out, 8, key);
    out.push(if b { 1 } else { 0 });
    proof {
        assert(out@ =~= old(out)@ + el_bool(key@, b));
    }
}

fn push_null_el(out: &mut Vec<u8>, key: &[u8])
    ensures
        final(out)@ == old(out)@ + el_null(key@),
{
    push_head(out, 10, key);
}

fn push_uuid_el(out: &mut Vec<u8>, key: &[u8], u: &Uuid)
    requires
        u.wf(),
    ensures
        final(out)@ == old(out)@ + el_uuid(key@, u@),
{
    push_head(out, 5, key);
    push_le_u32(out, 16);
    out.push(4);
    out.extend_from_slice(u.bytes.as_slice());
    proof {
        assert(out@ =~= old(out)@ + el_uuid(key@, u@));
    }
}

fn push_scalar_el(out: &mut Vec<u8>, key: &[u8], v: &BsonScalar) -> (r: bool)
    ensures
        r ==> final(out)@ == old(out)@ + el_scalar(key@, v@),
        !r ==> final(out)@ == old(out)@ && el_scalar(key@, v@).len() > max_doc_len(),
{
    match v {
        BsonScalar::Int32(n) => {
            push_i32_el(out, key, *n);
            true
        },
        BsonScalar::Int64(n) => {
            push_i64_el(out, key, *n);
            true
        },
        BsonScalar::Text(s) => push_str_el(out, key, s),
        BsonScalar::Bool(b) => {
            push_bool_el(out, key, *b);
            true
        },
        BsonScalar::Null => {
            push_null_el(out, key);
            true
        },
    }
}

fn push_doc(out: &mut Vec<u8>, body: &Vec<u8>) -> (r: bool)
    ensures
        r ==> final(out)@ == old(out)@ + doc_bytes(body@) && doc_bytes(body@).len() <= max_doc_len(),
        !r ==> final(out)@ == old(out)@ && doc_bytes(body@).len() > max_doc_len(),
{
    proof {
        vstd::bytes::lemma_auto_spec_u32_to_from_le_bytes();
    }
    if body.len() > 0x7FFF_FFFA {
        return false;
    }
    push_le_u32(out, (body.len() + 5) as u32);
    out.extend_from_slice(body.as_slice());
    out.push(0);
    proof {
        assert(out@ =~= old(out)@ + doc_bytes(body@));
    }
    true
}

/// The decimal digits of `n`, as bytes.
pub(crate) fn dec_key_vec(n: u64) -> (r: Vec<u8>)
    ensures
        r@ == dec_key(n as nat),
    decreases n,
{
    if n < 10 {
        let mut v: Vec<u8> = Vec::new();
        v.push((0x30 + n) as u8);
        proof {
            assert(v@ =~= dec_key(n as nat));
        }
        v
    } else {
        let mut v = dec_key_vec(n / 10);
        v.push((0x30 + (n % 10)) as u8);
        proof {
            assert(v@ =~= dec_key(n as nat));
        }
        v
    }
}

/// Serializes one request document and appends its bytes, unframed, to
/// `dst`. On failure `dst` is left untouched; failure happens exactly when
/// the value is malformed (a collection identifier that is not 16 bytes) or
/// too large for the document length prefix.
pub fn encode_command(c: &VectorSearchCommand, dst: &mut Vec<u8>) -> (r: Result<(), CodecError>)
    ensures
        r is Ok ==> command_wf(c@) && command_fits(c@) && final(dst)@ == old(dst)@ + command_bytes(c@),
        r matches Err(e) ==> final(dst)@ == old(dst)@ && e is SerializationFailure && !(command_wf(c@)
            && command_fits(c@)),
{
    if c.collection_uuid.bytes.len() != 16 {
        return Err(CodecError::SerializationFailure("collection UUID must hold 16 bytes"));
    }
    let mut body: Vec<u8> = Vec::new();
    if !push_str_el(&mut body, key_vector_search().as_slice(), &c.vector_search) {
        return Err(CodecError::SerializationFailure("vectorSearch field too large"));
    }
    if !push_str_el(&mut body, key_db().as_slice(), &c.db) {
        return Err(CodecError::SerializationFailure("$db field too large"));
    }
    push_uuid_el(&mut body, key_collection_uuid().as_slice(), &c.collection_uuid);
    if !push_str_el(&mut body, key_path().as_slice(), &c.path) {
        return Err(CodecError::SerializationFailure("path field too large"));
    }
    let mut arr: Vec<u8> = Vec::new();
    let mut i: usize = 0;
    while i < c.query_vector.len()
        invariant
            i <= c.query_vector@.len(),
            qv_body(c.query_vector@) == arr@ + qv_body_from(c.query_vector@, i as int),
        decreases c.query_vector@.len() - i,
    {
        let kv = dec_key_vec(i as u64);
        push_i64_el(&mut arr, kv.as_slice(), c.query_vector[i]);
        proof {
            assert(qv_body(c.query_vector@) =~= arr@ + qv_body_from(
                c.query_vector@,
                i + 1 as int,
            ));
        }
        i = i + 1;
    }
    proof {
        assert(qv_body(c.query_vector@) =~= arr@);
    }
    push_head(&mut body, 4, key_query_vector().as_slice());
    if !push_doc(&mut body, &arr) {
        return Err(CodecError::SerializationFailure("queryVector field too large"));
    }
    if !push_str_el(&mut body, key_index().as_slice(), &c.index) {
        return Err(CodecError::SerializationFailure("index field too large"));
    }
    push_i64_el(&mut body, key_limit().as_slice(), c.limit);
    push_i64_el(&mut body, key_num_candidates().as_slice(), c.num_candidates);
    proof {
        assert(body@ =~= command_body(c@));
    }
    if !push_doc(dst, &body) {
        return Err(CodecError::SerializationFailure("document too large"));
    }
    Ok(())
}

/// One array slot of the result list is never longer than the whole list.
proof fn lemma_results_slot_len(v: Seq<ResultView>, i: int, j: int)
    requires
        0 <= i <= j < v.len(),
    ensures
        results_body_from(v, i).len() >= el_doc(
            3u8,
            dec_key(j as nat),
            result_body(v[j]),
        ).len(),
    decreases j - i,
{
    if i < j {
        lemma_results_slot_len(v, i + 1, j);
    }
}

/// The whole response document is at least as long as any one result slot's
/// embedded document.
proof fn lemma_batch_ge_slot(bv: BatchView, i: int)
    requires
        bv.cursor is Some,
        0 <= i < bv.cursor.unwrap().next_batch.len(),
    ensures
        batch_bytes(bv).len() >= doc_bytes(result_body(bv.cursor.unwrap().next_batch[i])).len(),
        batch_bytes(bv).len() >= result_body(bv.cursor.unwrap().next_batch[i]).len(),
{
    vstd::bytes::lemma_auto_spec_u32_to_from_le_bytes();
    let cv = bv.cursor.unwrap();
    lemma_results_slot_len(cv.next_batch, 0, i);
    assert(batch_body(bv).len() >= el_doc(3u8, kb_cursor(), cursor_body(cv)).len());
    assert(cursor_body(cv).len() >= el_doc(
        4u8,
        kb_next_batch(),
        results_body(cv.next_batch),
    ).len());
    assert(el_doc(3u8, dec_key(i as nat), result_body(cv.next_batch[i])).len() >= doc_bytes(
        result_body(cv.next_batch[i]),
    ).len());
}

/// Serializes one response document and appends its bytes, unframed, to
/// `dst`. On failure `dst` is left untouched; failure happens exactly when
/// the value is too large for the document length prefix.
#[verifier::rlimit(60)]
pub fn encode_batch(b: &MongotCursorBatch, dst: &mut Vec<u8>) -> (r: Result<(), CodecError>)
    ensures
        r is Ok ==> batch_fits(b@) && final(dst)@ == old(dst)@ + batch_bytes(b@),
        r matches Err(e) ==> final(dst)@ == old(dst)@ && e is SerializationFailure && !batch_fits(
            b@,
        ),
{
    proof {
        vstd::bytes::lemma_auto_spec_u32_to_from_le_bytes();
    }
    let mut body: Vec<u8> = Vec::new();
    push_i32_el(&mut body, key_ok().as_slice(), b.ok as i32);
    match &b.errmsg {
        None => {},
        Some(s) => {
            if !push_str_el(&mut body, key_errmsg().as_slice(), s) {
                return Err(CodecError::SerializationFailure("errmsg field too large"));
            }
        },
    }
    match &b.cursor {
        None => {},
        Some(cr) => {
            let ghost cv = cr@;
            proof {
                assert(b@.cursor == Some(cv));
            }
            let mut cbody: Vec<u8> = Vec::new();
            push_i64_el(&mut cbody, key_id().as_slice(), cr.id as i64);
            let mut nb: Vec<u8> = Vec::new();
            let mut i: usize = 0;
            while i < cr.next_batch.len()
                invariant
                    i <= cv.next_batch.len(),
                    cv == cr@,
                    b@.cursor == Some(cv),
                    cv.next_batch.len() == cr.next_batch@.len(),
                    forall|k: int| 0 <= k < cv.next_batch.len() ==> cv.next_batch[k]
                        == cr.next_batch@[k]@,
                    results_body(cv.next_batch) == nb@ + results_body_from(
                        cv.next_batch,
                        i as int,
                    ),
                decreases cv.next_batch.len() - i,
            {
                let kv = dec_key_vec(i as u64);
                let mut rb: Vec<u8> = Vec::new();
                if !push_scalar_el(&mut rb, key_result_id().as_slice(), &cr.next_batch[i].id) {
                    proof {
                        assert(el_scalar(kb_result_id(), cv.next_batch[i as int].id) == result_body(
                            cv.next_batch[i as int],
                        ));
                        lemma_batch_ge_slot(b@, i as int);
                    }
                    return Err(CodecError::SerializationFailure("result _id too large"));
                }
                push_head(&mut nb, 3, kv.as_slice());
                if !push_doc(&mut nb, &rb) {
                    proof {
                        assert(rb@ == result_body(cv.next_batch[i as int]));
                        lemma_batch_ge_slot(b@, i as int);
                    }
                    return Err(CodecError::SerializationFailure("result document too large"));
                }
                proof {
                    assert(results_body(cv.next_batch) =~= nb@ + results_body_from(
                        cv.next_batch,
                        i + 1 as int,
                    ));
                }
                i = i + 1;
            }
            proof {
                assert(results_body(cv.next_batch) =~= nb@);
            }
            push_head(&mut cbody, 4, key_next_batch().as_slice());
            if !push_doc(&mut cbody, &nb) {
                return Err(CodecError::SerializationFailure("nextBatch too large"));
            }
            if !push_str_el(&mut cbody, key_ns().as_slice(), &cr.ns) {
                return Err(CodecError::SerializationFailure("ns field too large"));
            }
            match &cr.result_type {
                None => {},
                Some(t) => {
                    push_head(&mut cbody, 2, key_type_name().as_slice());
                    match t {
                        ResultType::Results => {
                            let names = key_results_name();
                            push_lp(&mut cbody, names.as_slice());
                        },
                        ResultType::Meta => {
                            let names = key_meta_name();
                            push_lp(&mut cbody, names.as_slice());
                        },
                    }
                },
            }
            proof {
                assert(cbody@ =~= cursor_body(cv));
            }
            push_head(&mut body, 3, key_cursor().as_slice());
            if !push_doc(&mut body, &cbody) {
                return Err(CodecError::SerializationFailure("cursor document too large"));
            }
        },
    }
    match &b.explain {
        None => {},
        Some(v) => {
            if !push_scalar_el(&mut body, key_explain().as_slice(), v) {
                return Err(CodecError::SerializationFailure("explain field too large"));
            }
        },
    }
    match &b.vars {
        None => {},
        Some(v) => {
            if !push_scalar_el(&mut body, key_vars().as_slice(), v) {
                return Err(CodecError::SerializationFailure("vars field too large"));
            }
        },
    }
    proof {
        assert(body@ =~= batch_body(b@));
    }
    if !push_doc(dst, &body) {
        return Err(CodecError::SerializationFailure("document too large"));
    }
    Ok(())
}

} // verus!
