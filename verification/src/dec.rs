//! The document decoder: verified parsers that read back exactly the wire
//! images defined in `wire`. Every parser carries both directions of its
//! meaning: whatever it accepts is the image of the value it returns, and
//! the image of any value placed at the current position is accepted.

use vstd::prelude::*;
use vstd::bytes::{u32_from_le_bytes, u64_from_le_bytes, spec_u32_to_le_bytes,
    spec_u64_to_le_bytes};
use vstd::bytes::u32_to_le_bytes;
use vstd::slice::{slice_subrange, slice_to_vec, slice_index_get};
use vstd::utf8::{valid_utf8, encode_utf8, encode_utf8_valid_utf8, encode_utf8_decode_utf8};
use crate::enc::dec_key_vec;
use crate::model::{BsonScalar, ScalarView, CodecError, Uuid, VectorSearchCommand, CommandView,
    command_wf, VectorSearchResult, ResultView, results_view, MongotCursorResult, CursorView,
    MongotCursorBatch, BatchView, ResultType};
use crate::wire::{max_doc_len, el_head, lp_bytes, lp_str, el_str, el_i32, el_i64, el_bool,
    el_null, el_uuid, el_scalar, el_doc, doc_bytes, dec_key, qv_body, qv_body_from, command_body,
    command_bytes, command_fits, kb_vector_search, kb_db, kb_collection_uuid, kb_path,
    kb_query_vector, kb_index, kb_limit, kb_num_candidates, cmd_tail1, cmd_tail2, cmd_tail3,
    cmd_tail4, cmd_tail5, cmd_tail6, key_vector_search, key_db, key_collection_uuid, key_path,
    key_query_vector, key_index, key_limit, key_num_candidates, result_body, results_body,
    results_body_from, cursor_body, cur_tail1, cur_tail2, batch_body, batch_bytes, batch_fits,
    bat_tail0, bat_tail1, bat_tail2, bat_tail3, el_type, kb_ok, kb_errmsg,
    kb_cursor, kb_explain, kb_vars, kb_id, kb_next_batch, kb_ns, kb_type_name, kb_results_name,
    kb_meta_name, kb_result_id, key_ok, key_errmsg, key_cursor, key_explain, key_vars, key_id,
    key_next_batch, key_ns, key_type_name, key_results_name, key_meta_name, key_result_id};

verus! {

/// `piece` occurs in `b` at offset `pos`.
pub open spec fn prefix_at(b: Seq<u8>, pos: int, piece: Seq<u8>) -> bool {
    &&& 0 <= pos
    &&& pos + piece.len() <= b.len()
    &&& b.subrange(pos, pos + piece.len()) == piece
}

/// A concatenation matches at `pos` exactly when its parts match one after
/// the other.
proof fn lemma_prefix_concat(b: Seq<u8>, pos: int, p: Seq<u8>, q: Seq<u8>)
    requires
        0 <= pos,
    ensures
        prefix_at(b, pos, p + q) <==> (prefix_at(b, pos, p) && prefix_at(b, pos + p.len(), q)),
{
    if prefix_at(b, pos, p + q) {
        assert forall|i: int| 0 <= i < p.len() implies b.subrange(pos, pos + p.len())[i]
            == p[i] by {
            assert(b.subrange(pos, pos + (p + q).len())[i] == (p + q)[i]);
        }
        assert(b.subrange(pos, pos + p.len()) =~= p);
        assert forall|i: int| 0 <= i < q.len() implies b.subrange(
            pos + p.len(),
            pos + p.len() + q.len(),
        )[i] == q[i] by {
            assert(b.subrange(pos, pos + (p + q).len())[p.len() + i] == (p + q)[p.len() + i]);
        }
        assert(b.subrange(pos + p.len(), pos + p.len() + q.len()) =~= q);
    }
    if prefix_at(b, pos, p) && prefix_at(b, pos + p.len(), q) {
        assert(b.subrange(pos, pos + (p + q).len()) =~= p + q);
    }
}

/// UTF-8 encoding is injective on character sequences.
proof fn lemma_encode_utf8_injective(a: Seq<char>, b: Seq<char>)
    requires
        encode_utf8(a) == encode_utf8(b),
    ensures
        a == b,
{
    encode_utf8_decode_utf8(a);
    encode_utf8_decode_utf8(b);
}

/// Relies on str::from_utf8: it returns Ok exactly when the bytes are valid
/// UTF-8, and the string slice it returns is over those same bytes.
#[verifier::external_body]
fn utf8_to_str<'a>(b: &'a [u8]) -> (r: Option<&'a str>)
    ensures
        r matches Some(s) ==> encode_utf8(s@) == b@,
        valid_utf8(b@) ==> r is Some,
{
    core::str::from_utf8(b).ok()
}

fn byte_at(buf: &[u8], i: usize) -> (r: u8)
    requires
        i < buf@.len(),
    ensures
        r == buf@[i as int],
{
    *slice_index_get(buf, i)
}

fn bytes_match(buf: &[u8], pos: usize, pat: &[u8]) -> (r: bool)
    requires
        pos <= buf@.len(),
    ensures
        r == prefix_at(buf@, pos as int, pat@),
{
    if buf.len() - pos < pat.len() {
        return false;
    }
    let n = pat.len();
    let mut i: usize = 0;
    while i < n
        invariant
            n == pat@.len(),
            pos + n <= buf@.len(),
            buf@.len() <= usize::MAX,
            i <= n,
            forall|j: int| 0 <= j < i ==> buf@[pos + j] == pat@[j],
        decreases n - i,
    {
        if byte_at(buf, pos + i) != byte_at(pat, i) {
            proof {
                assert(buf@.subrange(pos as int, pos + pat@.len())[i as int] == buf@[pos + i]);
            }
            return false;
        }
        i = i + 1;
    }
    proof {
        assert(buf@.subrange(pos as int, pos + pat@.len()) =~= pat@);
    }
    true
}

fn parse_expect(buf: &[u8], pos: usize, pat: &[u8]) -> (r: Option<usize>)
    requires
        pos <= buf@.len(),
    ensures
        r matches Some(p) ==> p as int == pos + pat@.len() && prefix_at(buf@, pos as int, pat@)
            && pos <= p <= buf@.len(),
        prefix_at(buf@, pos as int, pat@) ==> r is Some,
{
    if bytes_match(buf, pos, pat) {
        let _bl = buf.len();
        Some(pos + pat.len())
    } else {
        None
    }
}

fn parse_u32_at(buf: &[u8], pos: usize) -> (r: Option<(u32, usize)>)
    requires
        pos <= buf@.len(),
    ensures
        r matches Some(xp) ==> xp.1 as int == pos + 4 && pos + 4 <= buf@.len() && buf@.subrange(
            pos as int,
            pos + 4,
        ) == spec_u32_to_le_bytes(xp.0),
        pos + 4 <= buf@.len() ==> r is Some,
{
    proof {
        vstd::bytes::lemma_auto_spec_u32_to_from_le_bytes();
    }
    if buf.len() - pos < 4 {
        return None;
    }
    let s = slice_subrange(buf, pos, pos + 4);
    let x = u32_from_le_bytes(s);
    Some((x, pos + 4))
}

fn parse_u64_at(buf: &[u8], pos: usize) -> (r: Option<(u64, usize)>)
    requires
        pos <= buf@.len(),
    ensures
        r matches Some(xp) ==> xp.1 as int == pos + 8 && pos + 8 <= buf@.len() && buf@.subrange(
            pos as int,
            pos + 8,
        ) == spec_u64_to_le_bytes(xp.0),
        pos + 8 <= buf@.len() ==> r is Some,
{
    proof {
        vstd::bytes::lemma_auto_spec_u64_to_from_le_bytes();
    }
    if buf.len() - pos < 8 {
        return None;
    }
    let s = slice_subrange(buf, pos, pos + 8);
    let x = u64_from_le_bytes(s);
    Some((x, pos + 8))
}

/// A length-prefixed string value: a byte count, the UTF-8 bytes, a zero.
fn parse_lp_at(buf: &[u8], pos: usize) -> (r: Option<(String, usize)>)
    requires
        pos <= buf@.len() <= max_doc_len(),
    ensures
        r matches Some(sp) ==> pos < sp.1 <= buf@.len() && buf@.subrange(
            pos as int,
            sp.1 as int,
        ) == lp_str(sp.0@),
        forall|t: Seq<char>| #[trigger] prefix_at(buf@, pos as int, lp_str(t)) ==> (r matches Some(
            sp,
        ) && sp.0@ == t && sp.1 as int == pos + lp_str(t).len()),
{
    proof {
        vstd::bytes::lemma_auto_spec_u32_to_from_le_bytes();
    }
    let lwp = parse_u32_at(buf, pos);
    if lwp.is_none() {
        proof {
            assert forall|t: Seq<char>| #[trigger] prefix_at(
                buf@,
                pos as int,
                lp_str(t),
            ) implies false by {
                lemma_prefix_concat(
                    buf@,
                    pos as int,
                    spec_u32_to_le_bytes((encode_utf8(t).len() + 1) as u32),
                    encode_utf8(t) + seq![0u8],
                );
            }
        }
        return None;
    }
    let (lw, p1) = lwp.unwrap();
    proof {
        assert forall|t: Seq<char>| #[trigger] prefix_at(buf@, pos as int, lp_str(t)) implies lw
            as int == encode_utf8(t).len() + 1 by {
            lemma_prefix_concat(
                buf@,
                pos as int,
                spec_u32_to_le_bytes((encode_utf8(t).len() + 1) as u32),
                encode_utf8(t) + seq![0u8],
            );
        }
    }
    if lw == 0 || (lw as usize) > buf.len() - p1 {
        return None;
    }
    let end = p1 + lw as usize;
    let seg = slice_subrange(buf, p1, end - 1);
    proof {
        assert forall|t: Seq<char>| #[trigger] prefix_at(buf@, pos as int, lp_str(t)) implies seg@
            == encode_utf8(t) && buf@[end - 1] == 0 by {
            lemma_prefix_concat(
                buf@,
                pos as int,
                spec_u32_to_le_bytes((encode_utf8(t).len() + 1) as u32),
                encode_utf8(t) + seq![0u8],
            );
            lemma_prefix_concat(buf@, p1 as int, encode_utf8(t), seq![0u8]);
            assert(seg@ =~= encode_utf8(t));
            assert(buf@.subrange(end - 1, end as int)[0] == buf@[end - 1]);
        }
    }
    if byte_at(buf, end - 1) != 0 {
        return None;
    }
    let sto = utf8_to_str(seg);
    match sto {
        None => {
            proof {
                assert forall|t: Seq<char>| #[trigger] prefix_at(
                    buf@,
                    pos as int,
                    lp_str(t),
                ) implies false by {
                    encode_utf8_valid_utf8(t);
                }
            }
            None
        },
        Some(st) => {
            let s = st.to_owned();
            proof {
                assert(buf@.subrange(p1 as int, end - 1) =~= seg@);
                assert(buf@.subrange(end - 1, end as int) =~= seq![0u8]);
                assert(buf@.subrange(pos as int, end as int) =~= lp_str(s@));
                assert forall|t: Seq<char>| #[trigger] prefix_at(
                    buf@,
                    pos as int,
                    lp_str(t),
                ) implies s@ == t by {
                    lemma_encode_utf8_injective(s@, t);
                }
            }
            Some((s, end))
        },
    }
}

/// The first byte of a matched piece is the byte at its offset.
proof fn lemma_prefix_first(b: Seq<u8>, pos: int, piece: Seq<u8>)
    requires
        prefix_at(b, pos, piece),
        piece.len() > 0,
    ensures
        b[pos] == piece[0],
{
    assert(b.subrange(pos, pos + piece.len())[0] == b[pos]);
}

fn head_pat(tag: u8, key: &[u8]) -> (r: Vec<u8>)
    ensures
        r@ == el_head(tag, key@),
{
    let mut v: Vec<u8> = Vec::new();
    v.push(tag);
    v.extend_from_slice(key);
    v.push(0);
    proof {
        assert(v@ =~= el_head(tag, key@));
    }
    v
}

/// A string element with the given key.
fn parse_str_el(buf: &[u8], pos: usize, key: &[u8]) -> (r: Option<(String, usize)>)
    requires
        pos <= buf@.len() <= max_doc_len(),
    ensures
        r matches Some(sp) ==> pos < sp.1 <= buf@.len() && buf@.subrange(pos as int, sp.1 as int)
            == el_str(key@, sp.0@),
        forall|t: Seq<char>| #[trigger] prefix_at(buf@, pos as int, el_str(key@, t)) ==> (
        r matches Some(sp) && sp.0@ == t && sp.1 as int == pos + el_str(key@, t).len()),
{
    let pat = head_pat(2, key);
    let p1o = parse_expect(buf, pos, pat.as_slice());
    if p1o.is_none() {
        proof {
            assert forall|t: Seq<char>| #[trigger] prefix_at(
                buf@,
                pos as int,
                el_str(key@, t),
            ) implies false by {
                lemma_prefix_concat(buf@, pos as int, el_head(2u8, key@), lp_str(t));
            }
        }
        return None;
    }
    let p1 = p1o.unwrap();
    let so = parse_lp_at(buf, p1);
    match so {
        None => {
            proof {
                assert forall|t: Seq<char>| #[trigger] prefix_at(
                    buf@,
                    pos as int,
                    el_str(key@, t),
                ) implies false by {
                    lemma_prefix_concat(buf@, pos as int, el_head(2u8, key@), lp_str(t));
                }
            }
            None
        },
        Some((s, p2)) => {
            proof {
                assert(prefix_at(buf@, p1 as int, lp_str(s@)));
                lemma_prefix_concat(buf@, pos as int, el_head(2u8, key@), lp_str(s@));
                assert(buf@.subrange(pos as int, p2 as int) == el_str(key@, s@));
                assert forall|t: Seq<char>| #[trigger] prefix_at(
                    buf@,
                    pos as int,
                    el_str(key@, t),
                ) implies s@ == t && p2 as int == pos + el_str(key@, t).len() by {
                    lemma_prefix_concat(buf@, pos as int, el_head(2u8, key@), lp_str(t));
                }
            }
            Some((s, p2))
        },
    }
}

/// A 64-bit integer element with the given key.
fn parse_i64_el(buf: &[u8], pos: usize, key: &[u8]) -> (r: Option<(i64, usize)>)
    requires
        pos <= buf@.len(),
    ensures
        r matches Some(vp) ==> pos < vp.1 <= buf@.len() && buf@.subrange(pos as int, vp.1 as int)
            == el_i64(key@, vp.0),
        forall|w: i64| #[trigger] prefix_at(buf@, pos as int, el_i64(key@, w)) ==> (
        r matches Some(vp) && vp.0 == w && vp.1 as int == pos + el_i64(key@, w).len()),
{
    proof {
        vstd::bytes::lemma_auto_spec_u64_to_from_le_bytes();
    }
    let pat = head_pat(18, key);
    let p1o = parse_expect(buf, pos, pat.as_slice());
    if p1o.is_none() {
        proof {
            assert forall|w: i64| #[trigger] prefix_at(
                buf@,
                pos as int,
                el_i64(key@, w),
            ) implies false by {
                lemma_prefix_concat(
                    buf@,
                    pos as int,
                    el_head(18u8, key@),
                    spec_u64_to_le_bytes(w as u64),
                );
            }
        }
        return None;
    }
    let p1 = p1o.unwrap();
    let xo = parse_u64_at(buf, p1);
    match xo {
        None => {
            proof {
                assert forall|w: i64| #[trigger] prefix_at(
                    buf@,
                    pos as int,
                    el_i64(key@, w),
                ) implies false by {
                    lemma_prefix_concat(
                        buf@,
                        pos as int,
                        el_head(18u8, key@),
                        spec_u64_to_le_bytes(w as u64),
                    );
                }
            }
            None
        },
        Some((x, p2)) => {
            let v = x as i64;
            proof {
                assert((x as i64) as u64 == x) by (bit_vector);
                assert(prefix_at(buf@, p1 as int, spec_u64_to_le_bytes(v as u64)));
                lemma_prefix_concat(
                    buf@,
                    pos as int,
                    el_head(18u8, key@),
                    spec_u64_to_le_bytes(v as u64),
                );
                assert(buf@.subrange(pos as int, p2 as int) == el_i64(key@, v));
                assert forall|w: i64| #[trigger] prefix_at(
                    buf@,
                    pos as int,
                    el_i64(key@, w),
                ) implies v == w && p2 as int == pos + el_i64(key@, w).len() by {
                    lemma_prefix_concat(
                        buf@,
                        pos as int,
                        el_head(18u8, key@),
                        spec_u64_to_le_bytes(w as u64),
                    );
                    assert(w as u64 == x);
                    assert((w as u64) as i64 == w) by (bit_vector);
                }
            }
            Some((v, p2))
        },
    }
}

/// A 32-bit integer element with the given key.
fn parse_i32_el(buf: &[u8], pos: usize, key: &[u8]) -> (r: Option<(i32, usize)>)
    requires
        pos <= buf@.len(),
    ensures
        r matches Some(vp) ==> pos < vp.1 <= buf@.len() && buf@.subrange(pos as int, vp.1 as int)
            == el_i32(key@, vp.0),
        forall|w: i32| #[trigger] prefix_at(buf@, pos as int, el_i32(key@, w)) ==> (
        r matches Some(vp) && vp.0 == w && vp.1 as int == pos + el_i32(key@, w).len()),
{
    proof {
        vstd::bytes::lemma_auto_spec_u32_to_from_le_bytes();
    }
    let pat = head_pat(16, key);
    let p1o = parse_expect(buf, pos, pat.as_slice());
    if p1o.is_none() {
        proof {
            assert forall|w: i32| #[trigger] prefix_at(
                buf@,
                pos as int,
                el_i32(key@, w),
            ) implies false by {
                lemma_prefix_concat(
                    buf@,
                    pos as int,
                    el_head(16u8, key@),
                    spec_u32_to_le_bytes(w as u32),
                );
            }
        }
        return None;
    }
    let p1 = p1o.unwrap();
    let xo = parse_u32_at(buf, p1);
    match xo {
        None => {
            proof {
                assert forall|w: i32| #[trigger] prefix_at(
                    buf@,
                    pos as int,
                    el_i32(key@, w),
                ) implies false by {
                    lemma_prefix_concat(
                        buf@,
                        pos as int,
                        el_head(16u8, key@),
                        spec_u32_to_le_bytes(w as u32),
                    );
                }
            }
            None
        },
        Some((x, p2)) => {
            let v = x as i32;
            proof {
                assert((x as i32) as u32 == x) by (bit_vector);
                assert(prefix_at(buf@, p1 as int, spec_u32_to_le_bytes(v as u32)));
                lemma_prefix_concat(
                    buf@,
                    pos as int,
                    el_head(16u8, key@),
                    spec_u32_to_le_bytes(v as u32),
                );
                assert(buf@.subrange(pos as int, p2 as int) == el_i32(key@, v));
                assert forall|w: i32| #[trigger] prefix_at(
                    buf@,
                    pos as int,
                    el_i32(key@, w),
                ) implies v == w && p2 as int == pos + el_i32(key@, w).len() by {
                    lemma_prefix_concat(
                        buf@,
                        pos as int,
                        el_head(16u8, key@),
                        spec_u32_to_le_bytes(w as u32),
                    );
                    assert(w as u32 == x);
                    assert((w as u32) as i32 == w) by (bit_vector);
                }
            }
            Some((v, p2))
        },
    }
}

/// A binary element of subtype 4 with the given key, holding 16 bytes.
fn parse_uuid_el(buf: &[u8], pos: usize, key: &[u8]) -> (r: Option<(Vec<u8>, usize)>)
    requires
        pos <= buf@.len(),
    ensures
        r matches Some(vp) ==> pos < vp.1 <= buf@.len() && vp.0@.len() == 16 && buf@.subrange(
            pos as int,
            vp.1 as int,
        ) == el_uuid(key@, vp.0@),
        forall|w: Seq<u8>|
            w.len() == 16 && #[trigger] prefix_at(buf@, pos as int, el_uuid(key@, w)) ==> (
            r matches Some(vp) && vp.0@ == w && vp.1 as int == pos + el_uuid(key@, w).len()),
{
    proof {
        vstd::bytes::lemma_auto_spec_u32_to_from_le_bytes();
    }
    let mut pat = head_pat(5, key);
    let mut lenpat = vstd::bytes::u32_to_le_bytes(16);
    pat.append(&mut lenpat);
    pat.push(4);
    proof {
        assert(pat@ =~= el_head(5u8, key@) + spec_u32_to_le_bytes(16u32) + seq![4u8]);
    }
    let p1o = parse_expect(buf, pos, pat.as_slice());
    if p1o.is_none() {
        proof {
            assert forall|w: Seq<u8>|
                w.len() == 16 && #[trigger] prefix_at(
                    buf@,
                    pos as int,
                    el_uuid(key@, w),
                ) implies false by {
                lemma_prefix_concat(
                    buf@,
                    pos as int,
                    el_head(5u8, key@) + spec_u32_to_le_bytes(16u32) + seq![4u8],
                    w,
                );
            }
        }
        return None;
    }
    let p1 = p1o.unwrap();
    if buf.len() - p1 < 16 {
        proof {
            assert forall|w: Seq<u8>|
                w.len() == 16 && #[trigger] prefix_at(
                    buf@,
                    pos as int,
                    el_uuid(key@, w),
                ) implies false by {
                lemma_prefix_concat(
                    buf@,
                    pos as int,
                    el_head(5u8, key@) + spec_u32_to_le_bytes(16u32) + seq![4u8],
                    w,
                );
            }
        }
        return None;
    }
    let u = slice_to_vec(slice_subrange(buf, p1, p1 + 16));
    proof {
        assert(prefix_at(buf@, p1 as int, u@));
        lemma_prefix_concat(
            buf@,
            pos as int,
            el_head(5u8, key@) + spec_u32_to_le_bytes(16u32) + seq![4u8],
            u@,
        );
        assert(buf@.subrange(pos as int, p1 + 16) == el_uuid(key@, u@));
        assert forall|w: Seq<u8>|
            w.len() == 16 && #[trigger] prefix_at(buf@, pos as int, el_uuid(key@, w)) implies u@
            == w && p1 + 16 == pos + el_uuid(key@, w).len() by {
            lemma_prefix_concat(
                buf@,
                pos as int,
                el_head(5u8, key@) + spec_u32_to_le_bytes(16u32) + seq![4u8],
                w,
            );
        }
    }
    Some((u, p1 + 16))
}

/// A boolean element with the given key.
fn parse_bool_el(buf: &[u8], pos: usize, key: &[u8]) -> (r: Option<(bool, usize)>)
    requires
        pos <= buf@.len(),
    ensures
        r matches Some(vp) ==> pos < vp.1 <= buf@.len() && buf@.subrange(pos as int, vp.1 as int)
            == el_bool(key@, vp.0),
        forall|w: bool| #[trigger] prefix_at(buf@, pos as int, el_bool(key@, w)) ==> (
        r matches Some(vp) && vp.0 == w && vp.1 as int == pos + el_bool(key@, w).len()),
{
    let pat = head_pat(8, key);
    let p1o = parse_expect(buf, pos, pat.as_slice());
    if p1o.is_none() {
        proof {
            assert forall|w: bool| #[trigger] prefix_at(
                buf@,
                pos as int,
                el_bool(key@, w),
            ) implies false by {
                lemma_prefix_concat(
                    buf@,
                    pos as int,
                    el_head(8u8, key@),
                    seq![if w { 1u8 } else { 0u8 }],
                );
            }
        }
        return None;
    }
    let p1 = p1o.unwrap();
    if p1 >= buf.len() {
        proof {
            assert forall|w: bool| #[trigger] prefix_at(
                buf@,
                pos as int,
                el_bool(key@, w),
            ) implies false by {
                lemma_prefix_concat(
                    buf@,
                    pos as int,
                    el_head(8u8, key@),
                    seq![if w { 1u8 } else { 0u8 }],
                );
            }
        }
        return None;
    }
    let bv = byte_at(buf, p1);
    if bv != 0 && bv != 1 {
        proof {
            assert forall|w: bool| #[trigger] prefix_at(
                buf@,
                pos as int,
                el_bool(key@, w),
            ) implies false by {
                lemma_prefix_concat(
                    buf@,
                    pos as int,
                    el_head(8u8, key@),
                    seq![if w { 1u8 } else { 0u8 }],
                );
                lemma_prefix_first(buf@, p1 as int, seq![if w { 1u8 } else { 0u8 }]);
            }
        }
        return None;
    }
    let v = bv == 1;
    proof {
        assert(buf@.subrange(p1 as int, p1 + 1) =~= seq![if v { 1u8 } else { 0u8 }]);
        assert(prefix_at(buf@, p1 as int, seq![if v { 1u8 } else { 0u8 }]));
        lemma_prefix_concat(buf@, pos as int, el_head(8u8, key@), seq![if v { 1u8 } else { 0u8 }]);
        assert(buf@.subrange(pos as int, p1 + 1) == el_bool(key@, v));
        assert forall|w: bool| #[trigger] prefix_at(buf@, pos as int, el_bool(key@, w)) implies v
            == w && p1 + 1 == pos + el_bool(key@, w).len() by {
            lemma_prefix_concat(
                buf@,
                pos as int,
                el_head(8u8, key@),
                seq![if w { 1u8 } else { 0u8 }],
            );
            lemma_prefix_first(buf@, p1 as int, seq![if w { 1u8 } else { 0u8 }]);
        }
    }
    Some((v, p1 + 1))
}

/// A generic scalar element with the given key: the tag byte picks the form.
fn parse_scalar_el(buf: &[u8], pos: usize, key: &[u8]) -> (r: Option<(BsonScalar, usize)>)
    requires
        pos <= buf@.len() <= max_doc_len(),
    ensures
        r matches Some(vp) ==> pos < vp.1 <= buf@.len() && buf@.subrange(pos as int, vp.1 as int)
            == el_scalar(key@, vp.0@),
        forall|w: ScalarView| #[trigger] prefix_at(buf@, pos as int, el_scalar(key@, w)) ==> (
        r matches Some(vp) && vp.0@ == w && vp.1 as int == pos + el_scalar(key@, w).len()),
{
    if pos >= buf.len() {
        return None;
    }
    let tag = byte_at(buf, pos);
    proof {
        assert forall|w: ScalarView| #[trigger] prefix_at(
            buf@,
            pos as int,
            el_scalar(key@, w),
        ) implies buf@[pos as int] == (match w {
            ScalarView::Int32(_) => 16u8,
            ScalarView::Int64(_) => 18u8,
            ScalarView::Text(_) => 2u8,
            ScalarView::Bool(_) => 8u8,
            ScalarView::Null => 10u8,
        }) by {
            lemma_prefix_first(buf@, pos as int, el_scalar(key@, w));
        }
    }
    if tag == 2 {
        match parse_str_el(buf, pos, key) {
            None => None,
            Some((s, p)) => Some((BsonScalar::Text(s), p)),
        }
    } else if tag == 16 {
        match parse_i32_el(buf, pos, key) {
            None => None,
            Some((v, p)) => Some((BsonScalar::Int32(v), p)),
        }
    } else if tag == 18 {
        match parse_i64_el(buf, pos, key) {
            None => None,
            Some((v, p)) => Some((BsonScalar::Int64(v), p)),
        }
    } else if tag == 8 {
        match parse_bool_el(buf, pos, key) {
            None => None,
            Some((v, p)) => Some((BsonScalar::Bool(v), p)),
        }
    } else if tag == 10 {
        let pat = head_pat(10, key);
        match parse_expect(buf, pos, pat.as_slice()) {
            None => None,
            Some(p) => Some((BsonScalar::Null, p)),
        }
    } else {
        None
    }
}

/// Appending one value to a vector appends one slot to its array image.
proof fn lemma_qv_from_push(w: Seq<i64>, x: i64, j: int)
    requires
        0 <= j <= w.len(),
    ensures
        qv_body_from(w.push(x), j) == qv_body_from(w, j) + el_i64(dec_key(w.len() as nat), x),
    decreases w.len() - j,
{
    if j < w.len() {
        lemma_qv_from_push(w, x, j + 1);
        assert(w.push(x)[j] == w[j]);
        assert(qv_body_from(w.push(x), j) =~= qv_body_from(w, j) + el_i64(
            dec_key(w.len() as nat),
            x,
        ));
    } else {
        assert(qv_body_from(w.push(x), j + 1) =~= Seq::<u8>::empty());
        assert(qv_body_from(w.push(x), j) =~= qv_body_from(w, j) + el_i64(
            dec_key(w.len() as nat),
            x,
        ));
    }
}

/// An array element of 64-bit integers with the given key: an embedded
/// document whose slot keys are consecutive decimal indices.
#[verifier::rlimit(60)]
fn parse_qv_el(buf: &[u8], pos: usize, key: &[u8]) -> (r: Option<(Vec<i64>, usize)>)
    requires
        pos <= buf@.len() <= max_doc_len(),
    ensures
        r matches Some(vp) ==> pos < vp.1 <= buf@.len() && buf@.subrange(pos as int, vp.1 as int)
            == el_doc(4u8, key@, qv_body(vp.0@)),
        forall|w: Seq<i64>| #[trigger] prefix_at(buf@, pos as int, el_doc(4u8, key@, qv_body(w)))
            ==> (r matches Some(vp) && vp.0@ == w && vp.1 as int == pos + el_doc(
            4u8,
            key@,
            qv_body(w),
        ).len()),
{
    proof {
        vstd::bytes::lemma_auto_spec_u32_to_from_le_bytes();
    }
    let pat = head_pat(4, key);
    let p1o = parse_expect(buf, pos, pat.as_slice());
    if p1o.is_none() {
        proof {
            assert forall|w: Seq<i64>| #[trigger] prefix_at(
                buf@,
                pos as int,
                el_doc(4u8, key@, qv_body(w)),
            ) implies false by {
                lemma_prefix_concat(buf@, pos as int, el_head(4u8, key@), doc_bytes(qv_body(w)));
            }
        }
        return None;
    }
    let p1 = p1o.unwrap();
    proof {
        assert forall|w: Seq<i64>| #[trigger] prefix_at(
            buf@,
            pos as int,
            el_doc(4u8, key@, qv_body(w)),
        ) implies prefix_at(buf@, p1 as int, doc_bytes(qv_body(w))) && prefix_at(
            buf@,
            p1 as int,
            spec_u32_to_le_bytes((qv_body(w).len() + 5) as u32),
        ) && prefix_at(buf@, p1 + 4, qv_body(w) + seq![0u8]) && prefix_at(
            buf@,
            p1 + 4,
            qv_body(w),
        ) && prefix_at(buf@, p1 + 4 + qv_body(w).len(), seq![0u8]) by {
            lemma_prefix_concat(buf@, pos as int, el_head(4u8, key@), doc_bytes(qv_body(w)));
            lemma_prefix_concat(
                buf@,
                p1 as int,
                spec_u32_to_le_bytes((qv_body(w).len() + 5) as u32),
                qv_body(w) + seq![0u8],
            );
            lemma_prefix_concat(buf@, p1 + 4, qv_body(w), seq![0u8]);
        }
    }
    let lo = parse_u32_at(buf, p1);
    if lo.is_none() {
        return None;
    }
    let (lw, p2) = lo.unwrap();
    proof {
        assert forall|w: Seq<i64>| #[trigger] prefix_at(
            buf@,
            pos as int,
            el_doc(4u8, key@, qv_body(w)),
        ) implies lw as int == qv_body(w).len() + 5 by {
        }
    }
    if lw < 5 || (lw as usize) > buf.len() - p1 {
        return None;
    }
    let term = p1 + (lw as usize) - 1;
    let mut out: Vec<i64> = Vec::new();
    let mut i: usize = 0;
    let mut cur = p2;
    while cur < term
        invariant
            p1 + 4 == p2,
            p2 <= cur <= buf@.len() <= max_doc_len(),
            p2 <= term < buf@.len(),
            out@.len() == i,
            i <= cur,
            buf@.subrange(p2 as int, cur as int) == qv_body(out@),
            forall|w: Seq<i64>| #[trigger] prefix_at(
                buf@,
                pos as int,
                el_doc(4u8, key@, qv_body(w)),
            ) ==> i <= w.len() && out@ == w.subrange(0, i as int) && prefix_at(
                buf@,
                cur as int,
                qv_body_from(w, i as int),
            ) && cur + qv_body_from(w, i as int).len() == term,
        decreases buf@.len() - cur,
    {
        let kv = dec_key_vec(i as u64);
        let eo = parse_i64_el(buf, cur, kv.as_slice());
        if eo.is_none() {
            proof {
                assert forall|w: Seq<i64>| #[trigger] prefix_at(
                    buf@,
                    pos as int,
                    el_doc(4u8, key@, qv_body(w)),
                ) implies false by {
                    assert(i < w.len());
                    assert(prefix_at(buf@, cur as int, el_i64(kv@, w[i as int]))) by {
                        lemma_prefix_concat(
                            buf@,
                            cur as int,
                            el_i64(dec_key(i as nat), w[i as int]),
                            qv_body_from(w, i + 1),
                        );
                    }
                }
            }
            return None;
        }
        let (x, nxt) = eo.unwrap();
        proof {
            lemma_qv_from_push(out@, x, 0);
            assert(buf@.subrange(p2 as int, nxt as int) =~= buf@.subrange(p2 as int, cur as int)
                + buf@.subrange(cur as int, nxt as int));
            assert(buf@.subrange(p2 as int, nxt as int) == qv_body(out@.push(x)));
            assert forall|w: Seq<i64>| #[trigger] prefix_at(
                buf@,
                pos as int,
                el_doc(4u8, key@, qv_body(w)),
            ) implies i + 1 <= w.len() && out@.push(x) == w.subrange(0, i + 1) && prefix_at(
                buf@,
                nxt as int,
                qv_body_from(w, i + 1),
            ) && nxt + qv_body_from(w, i + 1).len() == term by {
                assert(i < w.len());
                lemma_prefix_concat(
                    buf@,
                    cur as int,
                    el_i64(dec_key(i as nat), w[i as int]),
                    qv_body_from(w, i + 1),
                );
                assert(prefix_at(buf@, cur as int, el_i64(kv@, w[i as int])));
                assert(x == w[i as int]);
                assert(out@.push(x) =~= w.subrange(0, i + 1));
            }
        }
        out.push(x);
        i = i + 1;
        cur = nxt;
    }
    if cur != term {
        proof {
            assert forall|w: Seq<i64>| #[trigger] prefix_at(
                buf@,
                pos as int,
                el_doc(4u8, key@, qv_body(w)),
            ) implies false by {
            }
        }
        return None;
    }
    if byte_at(buf, term) != 0 {
        proof {
            assert forall|w: Seq<i64>| #[trigger] prefix_at(
                buf@,
                pos as int,
                el_doc(4u8, key@, qv_body(w)),
            ) implies false by {
                lemma_prefix_first(buf@, term as int, seq![0u8]);
            }
        }
        return None;
    }
    proof {
        assert(prefix_at(buf@, p2 as int, qv_body(out@)));
        assert(buf@.subrange(term as int, term + 1) =~= seq![0u8]);
        assert(prefix_at(buf@, term as int, seq![0u8]));
        lemma_prefix_concat(buf@, p2 as int, qv_body(out@), seq![0u8]);
        assert(prefix_at(buf@, p1 as int, spec_u32_to_le_bytes((qv_body(out@).len() + 5) as u32)))
            by {
            assert(qv_body(out@).len() + 5 == lw as int);
        }
        lemma_prefix_concat(
            buf@,
            p1 as int,
            spec_u32_to_le_bytes((qv_body(out@).len() + 5) as u32),
            qv_body(out@) + seq![0u8],
        );
        lemma_prefix_concat(buf@, pos as int, el_head(4u8, key@), doc_bytes(qv_body(out@)));
        assert(buf@.subrange(pos as int, term + 1) == el_doc(4u8, key@, qv_body(out@)));
        assert forall|w: Seq<i64>| #[trigger] prefix_at(
            buf@,
            pos as int,
            el_doc(4u8, key@, qv_body(w)),
        ) implies out@ == w && term + 1 == pos + el_doc(4u8, key@, qv_body(w)).len() by {
            assert(w.subrange(0, w.len() as int) =~= w);
            assert(out@ == w.subrange(0, w.len() as int));
        }
    }
    Some((out, term + 1))
}

/// The eight request elements, in order, starting at offset 4.
#[verifier::rlimit(100)]
#[verifier::spinoff_prover]
fn parse_command_els(buf: &[u8]) -> (r: Option<(VectorSearchCommand, usize)>)
    requires
        4 <= buf@.len() <= max_doc_len(),
    ensures
        r matches Some(cp) ==> 4 < cp.1 <= buf@.len() && command_wf(cp.0@) && buf@.subrange(
            4,
            cp.1 as int,
        ) == command_body(cp.0@),
        forall|cv: CommandView|
            command_wf(cv) && #[trigger] prefix_at(buf@, 4, command_body(cv)) ==> (
            r matches Some(cp) && cp.0@ == cv && cp.1 as int == 4 + command_body(cv).len()),
{
    let r1 = parse_str_el(buf, 4, key_vector_search().as_slice());
    proof {
        assert forall|cv: CommandView|
            command_wf(cv) && #[trigger] prefix_at(buf@, 4, command_body(cv)) implies prefix_at(
            buf@,
            4,
            el_str(kb_vector_search(), cv.vector_search),
        ) by {
            lemma_prefix_concat(buf@, 4, el_str(kb_vector_search(), cv.vector_search), cmd_tail1(cv));
        }
    }
    if r1.is_none() {
        return None;
    }
    let (vs, p1) = r1.unwrap();
    proof {
        assert forall|cv: CommandView|
            command_wf(cv) && #[trigger] prefix_at(buf@, 4, command_body(cv)) implies vs@
            == cv.vector_search && prefix_at(buf@, p1 as int, cmd_tail1(cv)) && prefix_at(
            buf@,
            p1 as int,
            el_str(kb_db(), cv.db),
        ) by {
            lemma_prefix_concat(buf@, 4, el_str(kb_vector_search(), cv.vector_search), cmd_tail1(cv));
            lemma_prefix_concat(buf@, p1 as int, el_str(kb_db(), cv.db), cmd_tail2(cv));
        }
    }
    let r2 = parse_str_el(buf, p1, key_db().as_slice());
    if r2.is_none() {
        return None;
    }
    let (db, p2) = r2.unwrap();
    proof {
        assert forall|cv: CommandView|
            command_wf(cv) && #[trigger] prefix_at(buf@, 4, command_body(cv)) implies db@ == cv.db
            && prefix_at(buf@, p2 as int, cmd_tail2(cv)) && prefix_at(
            buf@,
            p2 as int,
            el_uuid(kb_collection_uuid(), cv.collection_uuid),
        ) by {
            lemma_prefix_concat(buf@, p1 as int, el_str(kb_db(), cv.db), cmd_tail2(cv));
            lemma_prefix_concat(
                buf@,
                p2 as int,
                el_uuid(kb_collection_uuid(), cv.collection_uuid),
                cmd_tail3(cv),
            );
        }
    }
    let r3 = parse_uuid_el(buf, p2, key_collection_uuid().as_slice());
    if r3.is_none() {
        return None;
    }
    let (uu, p3) = r3.unwrap();
    proof {
        assert forall|cv: CommandView|
            command_wf(cv) && #[trigger] prefix_at(buf@, 4, command_body(cv)) implies uu@
            == cv.collection_uuid && prefix_at(buf@, p3 as int, cmd_tail3(cv)) && prefix_at(
            buf@,
            p3 as int,
            el_str(kb_path(), cv.path),
        ) by {
            lemma_prefix_concat(
                buf@,
                p2 as int,
                el_uuid(kb_collection_uuid(), cv.collection_uuid),
                cmd_tail3(cv),
            );
            lemma_prefix_concat(buf@, p3 as int, el_str(kb_path(), cv.path), cmd_tail4(cv));
        }
    }
    let r4 = parse_str_el(buf, p3, key_path().as_slice());
    if r4.is_none() {
        return None;
    }
    let (pa, p4) = r4.unwrap();
    proof {
        assert forall|cv: CommandView|
            command_wf(cv) && #[trigger] prefix_at(buf@, 4, command_body(cv)) implies pa@
            == cv.path && prefix_at(buf@, p4 as int, cmd_tail4(cv)) && prefix_at(
            buf@,
            p4 as int,
            el_doc(4u8, kb_query_vector(), qv_body(cv.query_vector)),
        ) by {
            lemma_prefix_concat(buf@, p3 as int, el_str(kb_path(), cv.path), cmd_tail4(cv));
            lemma_prefix_concat(
                buf@,
                p4 as int,
                el_doc(4u8, kb_query_vector(), qv_body(cv.query_vector)),
                cmd_tail5(cv),
            );
        }
    }
    let r5 = parse_qv_el(buf, p4, key_query_vector().as_slice());
    if r5.is_none() {
        return None;
    }
    let (qv, p5) = r5.unwrap();
    proof {
        assert forall|cv: CommandView|
            command_wf(cv) && #[trigger] prefix_at(buf@, 4, command_body(cv)) implies qv@
            == cv.query_vector && prefix_at(buf@, p5 as int, cmd_tail5(cv)) && prefix_at(
            buf@,
            p5 as int,
            el_str(kb_index(), cv.index),
        ) by {
            lemma_prefix_concat(
                buf@,
                p4 as int,
                el_doc(4u8, kb_query_vector(), qv_body(cv.query_vector)),
                cmd_tail5(cv),
            );
            lemma_prefix_concat(buf@, p5 as int, el_str(kb_index(), cv.index), cmd_tail6(cv));
        }
    }
    let r6 = parse_str_el(buf, p5, key_index().as_slice());
    if r6.is_none() {
        return None;
    }
    let (ix, p6) = r6.unwrap();
    proof {
        assert forall|cv: CommandView|
            command_wf(cv) && #[trigger] prefix_at(buf@, 4, command_body(cv)) implies ix@
            == cv.index && prefix_at(buf@, p6 as int, cmd_tail6(cv)) && prefix_at(
            buf@,
            p6 as int,
            el_i64(kb_limit(), cv.limit),
        ) by {
            lemma_prefix_concat(buf@, p5 as int, el_str(kb_index(), cv.index), cmd_tail6(cv));
            lemma_prefix_concat(
                buf@,
                p6 as int,
                el_i64(kb_limit(), cv.limit),
                el_i64(kb_num_candidates(), cv.num_candidates),
            );
        }
    }
    let r7 = parse_i64_el(buf, p6, key_limit().as_slice());
    if r7.is_none() {
        return None;
    }
    let (li, p7) = r7.unwrap();
    proof {
        assert forall|cv: CommandView|
            command_wf(cv) && #[trigger] prefix_at(buf@, 4, command_body(cv)) implies li
            == cv.limit && prefix_at(buf@, p7 as int, el_i64(kb_num_candidates(), cv.num_candidates))
            && p7 + el_i64(kb_num_candidates(), cv.num_candidates).len() == 4 + command_body(
            cv,
        ).len() by {
            lemma_prefix_concat(
                buf@,
                p6 as int,
                el_i64(kb_limit(), cv.limit),
                el_i64(kb_num_candidates(), cv.num_candidates),
            );
        }
    }
    let r8 = parse_i64_el(buf, p7, key_num_candidates().as_slice());
    if r8.is_none() {
        return None;
    }
    let (nc, p8) = r8.unwrap();
    let c = VectorSearchCommand {
        vector_search: vs,
        db,
        collection_uuid: Uuid { bytes: uu },
        path: pa,
        query_vector: qv,
        index: ix,
        limit: li,
        num_candidates: nc,
    };
    proof {
        assert(buf@.subrange(p6 as int, p8 as int) =~= buf@.subrange(p6 as int, p7 as int)
            + buf@.subrange(p7 as int, p8 as int));
        assert(buf@.subrange(p6 as int, p8 as int) == cmd_tail6(c@));
        assert(buf@.subrange(p5 as int, p8 as int) =~= buf@.subrange(p5 as int, p6 as int)
            + buf@.subrange(p6 as int, p8 as int));
        assert(buf@.subrange(p5 as int, p8 as int) == cmd_tail5(c@));
        assert(buf@.subrange(p4 as int, p8 as int) =~= buf@.subrange(p4 as int, p5 as int)
            + buf@.subrange(p5 as int, p8 as int));
        assert(buf@.subrange(p4 as int, p8 as int) == cmd_tail4(c@));
        assert(buf@.subrange(p3 as int, p8 as int) =~= buf@.subrange(p3 as int, p4 as int)
            + buf@.subrange(p4 as int, p8 as int));
        assert(buf@.subrange(p3 as int, p8 as int) == cmd_tail3(c@));
        assert(buf@.subrange(p2 as int, p8 as int) =~= buf@.subrange(p2 as int, p3 as int)
            + buf@.subrange(p3 as int, p8 as int));
        assert(buf@.subrange(p2 as int, p8 as int) == cmd_tail2(c@));
        assert(buf@.subrange(p1 as int, p8 as int) =~= buf@.subrange(p1 as int, p2 as int)
            + buf@.subrange(p2 as int, p8 as int));
        assert(buf@.subrange(p1 as int, p8 as int) == cmd_tail1(c@));
        assert(buf@.subrange(4, p8 as int) =~= buf@.subrange(4, p1 as int) + buf@.subrange(
            p1 as int,
            p8 as int,
        ));
        assert(buf@.subrange(4, p8 as int) == command_body(c@));
        assert forall|cv: CommandView|
            command_wf(cv) && #[trigger] prefix_at(buf@, 4, command_body(cv)) implies c@ =~= cv
            && p8 as int == 4 + command_body(cv).len() by {
        }
    }
    Some((c, p8))
}

/// Reads one complete request document from `buf`. An empty buffer yields
/// `Ok(None)`: the "nothing to decode yet" signal, never an error. A
/// non-empty buffer either holds exactly the wire image of one well-formed
/// command, which is returned, or the call fails.
#[verifier::rlimit(100)]
#[verifier::spinoff_prover]
pub fn decode_command(buf: &[u8]) -> (r: Result<Option<VectorSearchCommand>, CodecError>)
    ensures
        (r == Ok::<Option<VectorSearchCommand>, CodecError>(None)) <==> buf@.len() == 0,
        r matches Ok(Some(c)) ==> command_wf(c@) && command_fits(c@) && buf@ == command_bytes(c@),
        forall|cv: CommandView|
            command_wf(cv) && command_fits(cv) && buf@ == #[trigger] command_bytes(cv) ==> (
            r matches Ok(Some(c)) && c@ == cv),
        r matches Err(e) ==> e is DeserializationFailure,
{
    proof {
        vstd::bytes::lemma_auto_spec_u32_to_from_le_bytes();
    }
    let n = buf.len();
    if n == 0 {
        return Ok(None);
    }
    if n > 0x7FFF_FFFF {
        return Err(CodecError::DeserializationFailure("document too large"));
    }
    proof {
        assert forall|cv: CommandView|
            command_wf(cv) && command_fits(cv) && buf@ == #[trigger] command_bytes(
                cv,
            ) implies prefix_at(buf@, 4, command_body(cv)) && 4 + command_body(cv).len() == n - 1
            && buf@[n - 1] == 0 && prefix_at(
            buf@,
            0,
            spec_u32_to_le_bytes((command_body(cv).len() + 5) as u32),
        ) by {
            assert(buf@.subrange(0, n as int) =~= buf@);
            assert(prefix_at(buf@, 0, command_bytes(cv)));
            lemma_prefix_concat(
                buf@,
                0,
                spec_u32_to_le_bytes((command_body(cv).len() + 5) as u32),
                command_body(cv) + seq![0u8],
            );
            lemma_prefix_concat(buf@, 4, command_body(cv), seq![0u8]);
            lemma_prefix_first(buf@, 4 + command_body(cv).len() as int, seq![0u8]);
        }
    }
    let lo = parse_u32_at(buf, 0);
    if lo.is_none() {
        return Err(CodecError::DeserializationFailure("document header truncated"));
    }
    let (lw, _hp) = lo.unwrap();
    if lw as usize != n {
        return Err(CodecError::DeserializationFailure("document length mismatch"));
    }
    let ro = parse_command_els(buf);
    if ro.is_none() {
        return Err(CodecError::DeserializationFailure("request document malformed"));
    }
    let (c, p8) = ro.unwrap();
    if p8 != n - 1 {
        return Err(CodecError::DeserializationFailure("document has trailing bytes"));
    }
    if byte_at(buf, n - 1) != 0 {
        return Err(CodecError::DeserializationFailure("document not terminated"));
    }
    proof {
        assert(command_body(c@).len() + 5 == n);
        assert(buf@ =~= buf@.subrange(0, 4) + buf@.subrange(4, p8 as int) + buf@.subrange(
            p8 as int,
            n as int,
        ));
        assert(buf@.subrange(p8 as int, n as int) =~= seq![0u8]);
        assert(buf@ == command_bytes(c@));
        assert(command_fits(c@));
    }
    Ok(Some(c))
}

/// One result document: a single-slot embedded document holding `_id`.
fn parse_result_item(buf: &[u8], pos: usize, key: &[u8]) -> (r: Option<(VectorSearchResult, usize)>)
    requires
        pos <= buf@.len() <= max_doc_len(),
    ensures
        r matches Some(vp) ==> pos < vp.1 <= buf@.len() && buf@.subrange(pos as int, vp.1 as int)
            == el_doc(3u8, key@, result_body(vp.0@)),
        forall|rv: ResultView| #[trigger] prefix_at(
            buf@,
            pos as int,
            el_doc(3u8, key@, result_body(rv)),
        ) ==> (r matches Some(vp) && vp.0@ == rv && vp.1 as int == pos + el_doc(
            3u8,
            key@,
            result_body(rv),
        ).len()),
{
    proof {
        vstd::bytes::lemma_auto_spec_u32_to_from_le_bytes();
    }
    let pat = head_pat(3, key);
    let p1o = parse_expect(buf, pos, pat.as_slice());
    if p1o.is_none() {
        proof {
            assert forall|rv: ResultView| #[trigger] prefix_at(
                buf@,
                pos as int,
                el_doc(3u8, key@, result_body(rv)),
            ) implies false by {
                lemma_prefix_concat(buf@, pos as int, el_head(3u8, key@), doc_bytes(result_body(rv)));
            }
        }
        return None;
    }
    let p1 = p1o.unwrap();
    proof {
        assert forall|rv: ResultView| #[trigger] prefix_at(
            buf@,
            pos as int,
            el_doc(3u8, key@, result_body(rv)),
        ) implies prefix_at(buf@, p1 as int, spec_u32_to_le_bytes((result_body(rv).len() + 5) as u32))
            && prefix_at(buf@, p1 + 4, result_body(rv)) && prefix_at(
            buf@,
            p1 + 4 + result_body(rv).len(),
            seq![0u8],
        ) by {
            lemma_prefix_concat(buf@, pos as int, el_head(3u8, key@), doc_bytes(result_body(rv)));
            lemma_prefix_concat(
                buf@,
                p1 as int,
                spec_u32_to_le_bytes((result_body(rv).len() + 5) as u32),
                result_body(rv) + seq![0u8],
            );
            lemma_prefix_concat(buf@, p1 + 4, result_body(rv), seq![0u8]);
        }
    }
    let lo = parse_u32_at(buf, p1);
    if lo.is_none() {
        return None;
    }
    let (lw, p2) = lo.unwrap();
    if lw < 5 || (lw as usize) > buf.len() - p1 {
        return None;
    }
    let so = parse_scalar_el(buf, p2, key_result_id().as_slice());
    if so.is_none() {
        return None;
    }
    let (sc, p3) = so.unwrap();
    if p3 != p1 + (lw as usize) - 1 {
        return None;
    }
    if byte_at(buf, p3) != 0 {
        proof {
            assert forall|rv: ResultView| #[trigger] prefix_at(
                buf@,
                pos as int,
                el_doc(3u8, key@, result_body(rv)),
            ) implies false by {
                lemma_prefix_first(buf@, p1 + 4 + result_body(rv).len(), seq![0u8]);
            }
        }
        return None;
    }
    let out = VectorSearchResult { id: sc };
    proof {
        assert(prefix_at(buf@, p2 as int, el_scalar(kb_result_id(), sc@)));
        assert(result_body(out@) == el_scalar(kb_result_id(), sc@));
        assert(buf@.subrange(p3 as int, p3 + 1) =~= seq![0u8]);
        assert(prefix_at(buf@, p3 as int, seq![0u8]));
        lemma_prefix_concat(buf@, p2 as int, result_body(out@), seq![0u8]);
        assert(prefix_at(buf@, p1 as int, spec_u32_to_le_bytes((result_body(out@).len() + 5) as u32)))
            by {
            assert(result_body(out@).len() + 5 == lw as int);
        }
        lemma_prefix_concat(
            buf@,
            p1 as int,
            spec_u32_to_le_bytes((result_body(out@).len() + 5) as u32),
            result_body(out@) + seq![0u8],
        );
        lemma_prefix_concat(buf@, pos as int, el_head(3u8, key@), doc_bytes(result_body(out@)));
        assert(buf@.subrange(pos as int, p3 + 1) == el_doc(3u8, key@, result_body(out@)));
        assert forall|rv: ResultView| #[trigger] prefix_at(
            buf@,
            pos as int,
            el_doc(3u8, key@, result_body(rv)),
        ) implies out@ =~= rv by {
        }
    }
    Some((out, p3 + 1))
}

/// Appending one result appends one slot to the array image.
proof fn lemma_results_from_push(w: Seq<ResultView>, x: ResultView, j: int)
    requires
        0 <= j <= w.len(),
    ensures
        results_body_from(w.push(x), j) == results_body_from(w, j) + el_doc(
            3u8,
            dec_key(w.len() as nat),
            result_body(x),
        ),
    decreases w.len() - j,
{
    if j < w.len() {
        lemma_results_from_push(w, x, j + 1);
        assert(w.push(x)[j] == w[j]);
        assert(results_body_from(w.push(x), j) =~= results_body_from(w, j) + el_doc(
            3u8,
            dec_key(w.len() as nat),
            result_body(x),
        ));
    } else {
        assert(results_body_from(w.push(x), j + 1) =~= Seq::<u8>::empty());
        assert(results_body_from(w.push(x), j) =~= results_body_from(w, j) + el_doc(
            3u8,
            dec_key(w.len() as nat),
            result_body(x),
        ));
    }
}

/// The result batch array: an embedded document whose slots are result
/// documents keyed by consecutive decimal indices.
#[verifier::rlimit(60)]
fn parse_results_el(buf: &[u8], pos: usize, key: &[u8]) -> (r: Option<(
    Vec<VectorSearchResult>,
    usize,
)>)
    requires
        pos <= buf@.len() <= max_doc_len(),
    ensures
        r matches Some(vp) ==> pos < vp.1 <= buf@.len() && buf@.subrange(pos as int, vp.1 as int)
            == el_doc(4u8, key@, results_body(results_view(vp.0@))),
        forall|w: Seq<ResultView>| #[trigger] prefix_at(
            buf@,
            pos as int,
            el_doc(4u8, key@, results_body(w)),
        ) ==> (r matches Some(vp) && results_view(vp.0@) == w && vp.1 as int == pos + el_doc(
            4u8,
            key@,
            results_body(w),
        ).len()),
{
    proof {
        vstd::bytes::lemma_auto_spec_u32_to_from_le_bytes();
    }
    let pat = head_pat(4, key);
    let p1o = parse_expect(buf, pos, pat.as_slice());
    if p1o.is_none() {
        proof {
            assert forall|w: Seq<ResultView>| #[trigger] prefix_at(
                buf@,
                pos as int,
                el_doc(4u8, key@, results_body(w)),
            ) implies false by {
                lemma_prefix_concat(buf@, pos as int, el_head(4u8, key@), doc_bytes(results_body(w)));
            }
        }
        return None;
    }
    let p1 = p1o.unwrap();
    proof {
        assert forall|w: Seq<ResultView>| #[trigger] prefix_at(
            buf@,
            pos as int,
            el_doc(4u8, key@, results_body(w)),
        ) implies prefix_at(buf@, p1 as int, spec_u32_to_le_bytes((results_body(w).len() + 5) as u32))
            && prefix_at(buf@, p1 + 4, results_body(w)) && prefix_at(
            buf@,
            p1 + 4 + results_body(w).len(),
            seq![0u8],
        ) by {
            lemma_prefix_concat(buf@, pos as int, el_head(4u8, key@), doc_bytes(results_body(w)));
            lemma_prefix_concat(
                buf@,
                p1 as int,
                spec_u32_to_le_bytes((results_body(w).len() + 5) as u32),
                results_body(w) + seq![0u8],
            );
            lemma_prefix_concat(buf@, p1 + 4, results_body(w), seq![0u8]);
        }
    }
    let lo = parse_u32_at(buf, p1);
    if lo.is_none() {
        return None;
    }
    let (lw, p2) = lo.unwrap();
    if lw < 5 || (lw as usize) > buf.len() - p1 {
        return None;
    }
    let term = p1 + (lw as usize) - 1;
    let mut out: Vec<VectorSearchResult> = Vec::new();
    let mut i: usize = 0;
    let mut cur = p2;
    while cur < term
        invariant
            p1 + 4 == p2,
            p2 <= cur <= buf@.len() <= max_doc_len(),
            p2 <= term < buf@.len(),
            out@.len() == i,
            i <= cur,
            buf@.subrange(p2 as int, cur as int) == results_body(results_view(out@)),
            forall|w: Seq<ResultView>| #[trigger] prefix_at(
                buf@,
                pos as int,
                el_doc(4u8, key@, results_body(w)),
            ) ==> i <= w.len() && results_view(out@) == w.subrange(0, i as int) && prefix_at(
                buf@,
                cur as int,
                results_body_from(w, i as int),
            ) && cur + results_body_from(w, i as int).len() == term,
        decreases buf@.len() - cur,
    {
        let kv = dec_key_vec(i as u64);
        let eo = parse_result_item(buf, cur, kv.as_slice());
        if eo.is_none() {
            proof {
                assert forall|w: Seq<ResultView>| #[trigger] prefix_at(
                    buf@,
                    pos as int,
                    el_doc(4u8, key@, results_body(w)),
                ) implies false by {
                    assert(i < w.len());
                    assert(prefix_at(
                        buf@,
                        cur as int,
                        el_doc(3u8, kv@, result_body(w[i as int])),
                    )) by {
                        lemma_prefix_concat(
                            buf@,
                            cur as int,
                            el_doc(3u8, dec_key(i as nat), result_body(w[i as int])),
                            results_body_from(w, i + 1),
                        );
                    }
                }
            }
            return None;
        }
        let (x, nxt) = eo.unwrap();
        proof {
            lemma_results_from_push(results_view(out@), x@, 0);
            assert(buf@.subrange(p2 as int, nxt as int) =~= buf@.subrange(p2 as int, cur as int)
                + buf@.subrange(cur as int, nxt as int));
            assert(results_view(out@.push(x)) =~= results_view(out@).push(x@));
            assert(buf@.subrange(p2 as int, nxt as int) == results_body(results_view(out@.push(x))));
            assert forall|w: Seq<ResultView>| #[trigger] prefix_at(
                buf@,
                pos as int,
                el_doc(4u8, key@, results_body(w)),
            ) implies i + 1 <= w.len() && results_view(out@.push(x)) == w.subrange(0, i + 1)
                && prefix_at(buf@, nxt as int, results_body_from(w, i + 1)) && nxt
                + results_body_from(w, i + 1).len() == term by {
                assert(i < w.len());
                lemma_prefix_concat(
                    buf@,
                    cur as int,
                    el_doc(3u8, dec_key(i as nat), result_body(w[i as int])),
                    results_body_from(w, i + 1),
                );
                assert(prefix_at(buf@, cur as int, el_doc(3u8, kv@, result_body(w[i as int]))));
                assert(x@ == w[i as int]);
                assert(results_view(out@.push(x)) =~= w.subrange(0, i + 1));
            }
        }
        out.push(x);
        i = i + 1;
        cur = nxt;
    }
    if cur != term {
        proof {
            assert forall|w: Seq<ResultView>| #[trigger] prefix_at(
                buf@,
                pos as int,
                el_doc(4u8, key@, results_body(w)),
            ) implies false by {
            }
        }
        return None;
    }
    if byte_at(buf, term) != 0 {
        proof {
            assert forall|w: Seq<ResultView>| #[trigger] prefix_at(
                buf@,
                pos as int,
                el_doc(4u8, key@, results_body(w)),
            ) implies false by {
                lemma_prefix_first(buf@, term as int, seq![0u8]);
            }
        }
        return None;
    }
    proof {
        assert(prefix_at(buf@, p2 as int, results_body(results_view(out@))));
        assert(buf@.subrange(term as int, term + 1) =~= seq![0u8]);
        assert(prefix_at(buf@, term as int, seq![0u8]));
        lemma_prefix_concat(buf@, p2 as int, results_body(results_view(out@)), seq![0u8]);
        assert(prefix_at(
            buf@,
            p1 as int,
            spec_u32_to_le_bytes((results_body(results_view(out@)).len() + 5) as u32),
        )) by {
            assert(results_body(results_view(out@)).len() + 5 == lw as int);
        }
        lemma_prefix_concat(
            buf@,
            p1 as int,
            spec_u32_to_le_bytes((results_body(results_view(out@)).len() + 5) as u32),
            results_body(results_view(out@)) + seq![0u8],
        );
        lemma_prefix_concat(
            buf@,
            pos as int,
            el_head(4u8, key@),
            doc_bytes(results_body(results_view(out@))),
        );
        assert(buf@.subrange(pos as int, term + 1) == el_doc(
            4u8,
            key@,
            results_body(results_view(out@)),
        ));
        assert forall|w: Seq<ResultView>| #[trigger] prefix_at(
            buf@,
            pos as int,
            el_doc(4u8, key@, results_body(w)),
        ) implies results_view(out@) == w && term + 1 == pos + el_doc(
            4u8,
            key@,
            results_body(w),
        ).len() by {
            assert(w.subrange(0, w.len() as int) =~= w);
            assert(results_view(out@) == w.subrange(0, w.len() as int));
        }
    }
    Some((out, term + 1))
}

/// The bytes at `pos` look like an element whose key is `k`: some tag byte,
/// then `k`, then the key's terminating zero.
pub open spec fn is_key_at(b: Seq<u8>, pos: int, k: Seq<u8>) -> bool {
    &&& 0 <= pos
    &&& pos + 1 + k.len() + 1 <= b.len()
    &&& b.subrange(pos + 1, pos + 1 + k.len()) == k
    &&& b[pos + 1 + k.len()] == 0
}

fn peek_key(buf: &[u8], pos: usize, key: &[u8]) -> (r: bool)
    requires
        pos <= buf@.len(),
    ensures
        r == is_key_at(buf@, pos as int, key@),
{
    if buf.len() - pos < 2 || buf.len() - pos - 2 < key.len() {
        return false;
    }
    if !bytes_match(buf, pos + 1, key) {
        return false;
    }
    byte_at(buf, pos + 1 + key.len()) == 0
}

/// An element carries its own key.
proof fn lemma_el_key(b: Seq<u8>, pos: int, tag: u8, k: Seq<u8>, rest: Seq<u8>)
    requires
        prefix_at(b, pos, el_head(tag, k) + rest),
    ensures
        is_key_at(b, pos, k),
{
    lemma_prefix_concat(b, pos, el_head(tag, k), rest);
    lemma_prefix_concat(b, pos, seq![tag], k + seq![0u8]);
    lemma_prefix_concat(b, pos + 1, k, seq![0u8]);
    lemma_prefix_first(b, pos + 1 + k.len(), seq![0u8]);
}

/// Among zero-free keys, the key read back from an element is unambiguous.
proof fn lemma_el_key_unique(b: Seq<u8>, pos: int, tag: u8, k: Seq<u8>, rest: Seq<u8>, k2: Seq<u8>)
    requires
        prefix_at(b, pos, el_head(tag, k) + rest),
        is_key_at(b, pos, k2),
        forall|i: int| 0 <= i < k.len() ==> k[i] != 0,
        forall|i: int| 0 <= i < k2.len() ==> k2[i] != 0,
    ensures
        k2 == k,
{
    lemma_el_key(b, pos, tag, k, rest);
    if k2.len() < k.len() {
        assert(b.subrange(pos + 1, pos + 1 + k.len())[k2.len() as int] == b[pos + 1 + k2.len()]);
        assert(false);
    } else if k2.len() > k.len() {
        assert(b.subrange(pos + 1, pos + 1 + k2.len())[k.len() as int] == b[pos + 1 + k.len()]);
        assert(false);
    } else {
        assert(k2 =~= k);
    }
}

/// The same, for a scalar element of any shape.
proof fn lemma_scalar_key_unique(b: Seq<u8>, pos: int, k: Seq<u8>, v: ScalarView, k2: Seq<u8>)
    requires
        prefix_at(b, pos, el_scalar(k, v)),
        is_key_at(b, pos, k2),
        forall|i: int| 0 <= i < k.len() ==> k[i] != 0,
        forall|i: int| 0 <= i < k2.len() ==> k2[i] != 0,
    ensures
        k2 == k,
{
    match v {
        ScalarView::Int32(x) => {
            lemma_el_key_unique(b, pos, 16u8, k, spec_u32_to_le_bytes(x as u32), k2);
        },
        ScalarView::Int64(x) => {
            lemma_el_key_unique(b, pos, 18u8, k, spec_u64_to_le_bytes(x as u64), k2);
        },
        ScalarView::Text(t) => {
            lemma_el_key_unique(b, pos, 2u8, k, lp_str(t), k2);
        },
        ScalarView::Bool(x) => {
            lemma_el_key_unique(b, pos, 8u8, k, seq![if x { 1u8 } else { 0u8 }], k2);
        },
        ScalarView::Null => {
            assert(el_head(10u8, k) + Seq::<u8>::empty() =~= el_null(k));
            lemma_el_key_unique(b, pos, 10u8, k, Seq::<u8>::empty(), k2);
        },
    }
}

/// None of the four optional keys of a response document contains a zero
/// byte, and they are pairwise distinct.
proof fn lemma_option_keys()
    ensures
        forall|i: int| 0 <= i < kb_errmsg().len() ==> kb_errmsg()[i] != 0,
        forall|i: int| 0 <= i < kb_cursor().len() ==> kb_cursor()[i] != 0,
        forall|i: int| 0 <= i < kb_explain().len() ==> kb_explain()[i] != 0,
        forall|i: int| 0 <= i < kb_vars().len() ==> kb_vars()[i] != 0,
        kb_errmsg() != kb_cursor(),
        kb_errmsg() != kb_explain(),
        kb_errmsg() != kb_vars(),
        kb_cursor() != kb_explain(),
        kb_cursor() != kb_vars(),
        kb_explain() != kb_vars(),
{
    assert forall|i: int| 0 <= i < kb_errmsg().len() implies kb_errmsg()[i] != 0 by {
        assert(kb_errmsg()[0] != 0 && kb_errmsg()[1] != 0 && kb_errmsg()[2] != 0 && kb_errmsg()[3]
            != 0 && kb_errmsg()[4] != 0 && kb_errmsg()[5] != 0);
    }
    assert forall|i: int| 0 <= i < kb_cursor().len() implies kb_cursor()[i] != 0 by {
        assert(kb_cursor()[0] != 0 && kb_cursor()[1] != 0 && kb_cursor()[2] != 0 && kb_cursor()[3]
            != 0 && kb_cursor()[4] != 0 && kb_cursor()[5] != 0);
    }
    assert forall|i: int| 0 <= i < kb_explain().len() implies kb_explain()[i] != 0 by {
        assert(kb_explain()[0] != 0 && kb_explain()[1] != 0 && kb_explain()[2] != 0
            && kb_explain()[3] != 0 && kb_explain()[4] != 0 && kb_explain()[5] != 0
            && kb_explain()[6] != 0);
    }
    assert forall|i: int| 0 <= i < kb_vars().len() implies kb_vars()[i] != 0 by {
        assert(kb_vars()[0] != 0 && kb_vars()[1] != 0 && kb_vars()[2] != 0 && kb_vars()[3] != 0);
    }
    assert(kb_errmsg()[0] != kb_cursor()[0]);
    assert(kb_errmsg()[1] != kb_explain()[1]);
    assert(kb_errmsg()[0] != kb_vars()[0]);
    assert(kb_cursor()[0] != kb_explain()[0]);
    assert(kb_cursor()[0] != kb_vars()[0]);
    assert(kb_explain()[0] != kb_vars()[0]);
}

/// The four cursor fields, in order, starting at `pos`; `term` is where the
/// enclosing document's terminator must sit.
#[verifier::rlimit(100)]
#[verifier::spinoff_prover]
fn parse_cursor_fields(buf: &[u8], pos: usize, term: usize) -> (r: Option<(
    MongotCursorResult,
    usize,
)>)
    requires
        pos <= buf@.len() <= max_doc_len(),
        term < buf@.len(),
    ensures
        r matches Some(cp) ==> pos <= cp.1 <= buf@.len() && buf@.subrange(pos as int, cp.1 as int)
            == cursor_body(cp.0@),
        forall|w: CursorView|
            #[trigger] prefix_at(buf@, pos as int, cursor_body(w)) && pos + cursor_body(w).len()
                == term ==> (r matches Some(cp) && cp.0@ == w && cp.1 == term),
{
    proof {
        vstd::bytes::lemma_auto_spec_u32_to_from_le_bytes();
    }
    let io = parse_i64_el(buf, pos, key_id().as_slice());
    proof {
        assert forall|w: CursorView|
            #[trigger] prefix_at(buf@, pos as int, cursor_body(w)) && pos + cursor_body(w).len()
                == term implies prefix_at(buf@, pos as int, el_i64(kb_id(), w.id as i64)) by {
            lemma_prefix_concat(buf@, pos as int, el_i64(kb_id(), w.id as i64), cur_tail1(w));
        }
    }
    if io.is_none() {
        return None;
    }
    let (idv, c1) = io.unwrap();
    if idv < 0 || idv > 0xFFFF_FFFFi64 {
        proof {
            assert forall|w: CursorView|
                #[trigger] prefix_at(buf@, pos as int, cursor_body(w)) && pos + cursor_body(
                    w,
                ).len() == term implies false by {
                assert(0 <= w.id as i64 <= 0xFFFF_FFFFi64);
            }
        }
        return None;
    }
    let id = idv as u32;
    proof {
        assert forall|w: CursorView|
            #[trigger] prefix_at(buf@, pos as int, cursor_body(w)) && pos + cursor_body(w).len()
                == term implies id == w.id && prefix_at(buf@, c1 as int, cur_tail1(w)) && c1
            + cur_tail1(w).len() == term && prefix_at(
            buf@,
            c1 as int,
            el_doc(4u8, kb_next_batch(), results_body(w.next_batch)),
        ) by {
            lemma_prefix_concat(buf@, pos as int, el_i64(kb_id(), w.id as i64), cur_tail1(w));
            lemma_prefix_concat(
                buf@,
                c1 as int,
                el_doc(4u8, kb_next_batch(), results_body(w.next_batch)),
                cur_tail2(w),
            );
        }
    }
    let no = parse_results_el(buf, c1, key_next_batch().as_slice());
    if no.is_none() {
        return None;
    }
    let (nb, c2) = no.unwrap();
    proof {
        assert forall|w: CursorView|
            #[trigger] prefix_at(buf@, pos as int, cursor_body(w)) && pos + cursor_body(w).len()
                == term implies results_view(nb@) == w.next_batch && prefix_at(
            buf@,
            c2 as int,
            cur_tail2(w),
        ) && c2 + cur_tail2(w).len() == term && prefix_at(buf@, c2 as int, el_str(kb_ns(), w.ns)) by {
            lemma_prefix_concat(
                buf@,
                c1 as int,
                el_doc(4u8, kb_next_batch(), results_body(w.next_batch)),
                cur_tail2(w),
            );
            lemma_prefix_concat(
                buf@,
                c2 as int,
                el_str(kb_ns(), w.ns),
                match w.result_type {
                    Some(t) => el_type(t),
                    None => Seq::<u8>::empty(),
                },
            );
        }
    }
    let nso = parse_str_el(buf, c2, key_ns().as_slice());
    if nso.is_none() {
        return None;
    }
    let (ns, c3) = nso.unwrap();
    proof {
        assert forall|w: CursorView|
            #[trigger] prefix_at(buf@, pos as int, cursor_body(w)) && pos + cursor_body(w).len()
                == term implies ns@ == w.ns && prefix_at(
            buf@,
            c3 as int,
            match w.result_type {
                Some(t) => el_type(t),
                None => Seq::<u8>::empty(),
            },
        ) && c3 + (match w.result_type {
            Some(t) => el_type(t),
            None => Seq::<u8>::empty(),
        }).len() == term by {
            lemma_prefix_concat(
                buf@,
                c2 as int,
                el_str(kb_ns(), w.ns),
                match w.result_type {
                    Some(t) => el_type(t),
                    None => Seq::<u8>::empty(),
                },
            );
        }
    }
    let rt: Option<ResultType>;
    let c4: usize;
    if c3 == term {
        rt = None;
        c4 = c3;
    } else {
        let mut pr = head_pat(2, key_type_name().as_slice());
        let mut lp8 = u32_to_le_bytes(8);
        pr.append(&mut lp8);
        let mut rn = key_results_name();
        pr.append(&mut rn);
        pr.push(0);
        proof {
            assert(pr@ =~= el_type(ResultType::Results));
        }
        let pro = parse_expect(buf, c3, pr.as_slice());
        match pro {
            Some(p) => {
                rt = Some(ResultType::Results);
                c4 = p;
                proof {
                    assert forall|w: CursorView|
                        #[trigger] prefix_at(buf@, pos as int, cursor_body(w)) && pos
                            + cursor_body(w).len() == term implies w.result_type == Some(
                        ResultType::Results,
                    ) by {
                        if w.result_type is None {
                            assert(c3 == term);
                        } else if w.result_type == Some(ResultType::Meta) {
                            lemma_prefix_concat(
                                buf@,
                                c3 as int,
                                el_head(2u8, kb_type_name()),
                                lp_bytes(kb_meta_name()),
                            );
                            lemma_prefix_concat(
                                buf@,
                                c3 as int,
                                el_head(2u8, kb_type_name()),
                                lp_bytes(kb_results_name()),
                            );
                            let hl = el_head(2u8, kb_type_name()).len();
                            lemma_prefix_concat(
                                buf@,
                                c3 + hl,
                                spec_u32_to_le_bytes(5u32),
                                kb_meta_name() + seq![0u8],
                            );
                            lemma_prefix_concat(
                                buf@,
                                c3 + hl,
                                spec_u32_to_le_bytes(8u32),
                                kb_results_name() + seq![0u8],
                            );
                        }
                    }
                }
            },
            None => {
                let mut pm = head_pat(2, key_type_name().as_slice());
                let mut lp5 = u32_to_le_bytes(5);
                pm.append(&mut lp5);
                let mut mn = key_meta_name();
                pm.append(&mut mn);
                pm.push(0);
                proof {
                    assert(pm@ =~= el_type(ResultType::Meta));
                }
                let pmo = parse_expect(buf, c3, pm.as_slice());
                match pmo {
                    Some(p) => {
                        rt = Some(ResultType::Meta);
                        c4 = p;
                        proof {
                            assert forall|w: CursorView|
                                #[trigger] prefix_at(buf@, pos as int, cursor_body(w)) && pos
                                    + cursor_body(w).len() == term implies w.result_type == Some(
                                ResultType::Meta,
                            ) by {
                                if w.result_type is None {
                                    assert(c3 == term);
                                }
                            }
                        }
                    },
                    None => {
                        proof {
                            assert forall|w: CursorView|
                                #[trigger] prefix_at(buf@, pos as int, cursor_body(w)) && pos
                                    + cursor_body(w).len() == term implies false by {
                                if w.result_type is None {
                                    assert(c3 == term);
                                }
                            }
                        }
                        return None;
                    },
                }
            },
        }
    }
    let out = MongotCursorResult { id, next_batch: nb, ns, result_type: rt };
    proof {
        assert((idv as u32) as i64 == idv) by (bit_vector)
            requires
                0 <= idv <= 0xFFFF_FFFFi64,
        ;
        assert(out@.next_batch == results_view(nb@));
        assert(buf@.subrange(c3 as int, c4 as int) == (match out@.result_type {
            Some(t) => el_type(t),
            None => Seq::<u8>::empty(),
        })) by {
            if rt is None {
                assert(buf@.subrange(c3 as int, c3 as int) =~= Seq::<u8>::empty());
            }
        }
        assert(buf@.subrange(c2 as int, c4 as int) =~= buf@.subrange(c2 as int, c3 as int)
            + buf@.subrange(c3 as int, c4 as int));
        assert(buf@.subrange(c2 as int, c4 as int) == cur_tail2(out@));
        assert(buf@.subrange(c1 as int, c4 as int) =~= buf@.subrange(c1 as int, c2 as int)
            + buf@.subrange(c2 as int, c4 as int));
        assert(buf@.subrange(c1 as int, c4 as int) == cur_tail1(out@));
        assert(buf@.subrange(pos as int, c4 as int) =~= buf@.subrange(pos as int, c1 as int)
            + buf@.subrange(c1 as int, c4 as int));
        assert(buf@.subrange(pos as int, c4 as int) == cursor_body(out@));
        assert forall|w: CursorView|
            #[trigger] prefix_at(buf@, pos as int, cursor_body(w)) && pos + cursor_body(w).len()
                == term implies out@ =~= w && c4 == term by {
        }
    }
    Some((out, c4))
}

/// The `cursor` element: an embedded document holding the cursor handle, the
/// result page, the namespace, and the optional page-kind marker.
#[verifier::rlimit(100)]
#[verifier::spinoff_prover]
fn parse_cursor_el(buf: &[u8], pos: usize) -> (r: Option<(MongotCursorResult, usize)>)
    requires
        pos <= buf@.len() <= max_doc_len(),
    ensures
        r matches Some(vp) ==> pos < vp.1 <= buf@.len() && buf@.subrange(pos as int, vp.1 as int)
            == el_doc(3u8, kb_cursor(), cursor_body(vp.0@)),
        forall|w: CursorView| #[trigger] prefix_at(
            buf@,
            pos as int,
            el_doc(3u8, kb_cursor(), cursor_body(w)),
        ) ==> (r matches Some(vp) && vp.0@ == w && vp.1 as int == pos + el_doc(
            3u8,
            kb_cursor(),
            cursor_body(w),
        ).len()),
{
    proof {
        vstd::bytes::lemma_auto_spec_u32_to_from_le_bytes();
    }
    let pat = head_pat(3, key_cursor().as_slice());
    let p1o = parse_expect(buf, pos, pat.as_slice());
    if p1o.is_none() {
        proof {
            assert forall|w: CursorView| #[trigger] prefix_at(
                buf@,
                pos as int,
                el_doc(3u8, kb_cursor(), cursor_body(w)),
            ) implies false by {
                lemma_prefix_concat(
                    buf@,
                    pos as int,
                    el_head(3u8, kb_cursor()),
                    doc_bytes(cursor_body(w)),
                );
            }
        }
        return None;
    }
    let p1 = p1o.unwrap();
    proof {
        assert forall|w: CursorView| #[trigger] prefix_at(
            buf@,
            pos as int,
            el_doc(3u8, kb_cursor(), cursor_body(w)),
        ) implies prefix_at(buf@, p1 as int, spec_u32_to_le_bytes((cursor_body(w).len() + 5) as u32))
            && prefix_at(buf@, p1 + 4, cursor_body(w)) && prefix_at(
            buf@,
            p1 + 4 + cursor_body(w).len(),
            seq![0u8],
        ) by {
            lemma_prefix_concat(
                buf@,
                pos as int,
                el_head(3u8, kb_cursor()),
                doc_bytes(cursor_body(w)),
            );
            lemma_prefix_concat(
                buf@,
                p1 as int,
                spec_u32_to_le_bytes((cursor_body(w).len() + 5) as u32),
                cursor_body(w) + seq![0u8],
            );
            lemma_prefix_concat(buf@, p1 + 4, cursor_body(w), seq![0u8]);
        }
    }
    let lo = parse_u32_at(buf, p1);
    if lo.is_none() {
        return None;
    }
    let (lw, p2) = lo.unwrap();
    if lw < 5 || (lw as usize) > buf.len() - p1 {
        return None;
    }
    let term = p1 + (lw as usize) - 1;
    let fo = parse_cursor_fields(buf, p2, term);
    if fo.is_none() {
        proof {
            assert forall|w: CursorView| #[trigger] prefix_at(
                buf@,
                pos as int,
                el_doc(3u8, kb_cursor(), cursor_body(w)),
            ) implies false by {
                assert(lw as int == cursor_body(w).len() + 5);
            }
        }
        return None;
    }
    let (cr, c4) = fo.unwrap();
    proof {
        assert forall|w: CursorView| #[trigger] prefix_at(
            buf@,
            pos as int,
            el_doc(3u8, kb_cursor(), cursor_body(w)),
        ) implies cr@ == w && c4 == term && term + 1 == pos + el_doc(
            3u8,
            kb_cursor(),
            cursor_body(w),
        ).len() by {
            assert(lw as int == cursor_body(w).len() + 5);
            assert(prefix_at(buf@, p2 as int, cursor_body(w)));
        }
    }
    if c4 != term {
        return None;
    }
    if byte_at(buf, term) != 0 {
        proof {
            assert forall|w: CursorView| #[trigger] prefix_at(
                buf@,
                pos as int,
                el_doc(3u8, kb_cursor(), cursor_body(w)),
            ) implies false by {
                lemma_prefix_first(buf@, p1 + 4 + cursor_body(w).len(), seq![0u8]);
            }
        }
        return None;
    }
    proof {
        assert(prefix_at(buf@, p2 as int, cursor_body(cr@)));
        assert(buf@.subrange(term as int, term + 1) =~= seq![0u8]);
        assert(prefix_at(buf@, term as int, seq![0u8]));
        lemma_prefix_concat(buf@, p2 as int, cursor_body(cr@), seq![0u8]);
        assert(prefix_at(buf@, p1 as int, spec_u32_to_le_bytes((cursor_body(cr@).len() + 5) as u32)))
            by {
            assert(cursor_body(cr@).len() + 5 == lw as int);
        }
        lemma_prefix_concat(
            buf@,
            p1 as int,
            spec_u32_to_le_bytes((cursor_body(cr@).len() + 5) as u32),
            cursor_body(cr@) + seq![0u8],
        );
        lemma_prefix_concat(
            buf@,
            pos as int,
            el_head(3u8, kb_cursor()),
            doc_bytes(cursor_body(cr@)),
        );
        assert(buf@.subrange(pos as int, term + 1) == el_doc(3u8, kb_cursor(), cursor_body(cr@)));
    }
    Some((cr, term + 1))
}

/// What the bytes after the `ok` element can look like: if `errmsg` is
/// absent, no element with the `errmsg` key can start here.
proof fn batch_stage_errmsg(b: Seq<u8>, bv: BatchView, pos: int, n: int)
    requires
        prefix_at(b, pos, bat_tail0(bv)),
        pos + bat_tail0(bv).len() == n - 1,
        b.len() == n,
    ensures
        bv.errmsg is Some ==> prefix_at(b, pos, el_str(kb_errmsg(), bv.errmsg.unwrap()))
            && is_key_at(b, pos, kb_errmsg()),
        bv.errmsg is None ==> !is_key_at(b, pos, kb_errmsg()),
{
    lemma_option_keys();
    if bv.errmsg is Some {
        lemma_prefix_concat(b, pos, el_str(kb_errmsg(), bv.errmsg.unwrap()), bat_tail1(bv));
        lemma_el_key(b, pos, 2u8, kb_errmsg(), lp_str(bv.errmsg.unwrap()));
    } else {
        assert(bat_tail0(bv) =~= bat_tail1(bv));
        if is_key_at(b, pos, kb_errmsg()) {
            if bv.cursor is Some {
                lemma_prefix_concat(
                    b,
                    pos,
                    el_doc(3u8, kb_cursor(), cursor_body(bv.cursor.unwrap())),
                    bat_tail2(bv),
                );
                lemma_el_key_unique(
                    b,
                    pos,
                    3u8,
                    kb_cursor(),
                    doc_bytes(cursor_body(bv.cursor.unwrap())),
                    kb_errmsg(),
                );
            } else {
                assert(bat_tail1(bv) =~= bat_tail2(bv));
                if bv.explain is Some {
                    lemma_prefix_concat(
                        b,
                        pos,
                        el_scalar(kb_explain(), bv.explain.unwrap()),
                        bat_tail3(bv),
                    );
                    lemma_scalar_key_unique(b, pos, kb_explain(), bv.explain.unwrap(), kb_errmsg());
                } else {
                    assert(bat_tail2(bv) =~= bat_tail3(bv));
                    if bv.vars is Some {
                        assert(bat_tail3(bv) == el_scalar(kb_vars(), bv.vars.unwrap()));
                        assert(prefix_at(b, pos, el_scalar(kb_vars(), bv.vars.unwrap())));
                        lemma_scalar_key_unique(b, pos, kb_vars(), bv.vars.unwrap(), kb_errmsg());
                    } else {
                        assert(bat_tail3(bv) =~= Seq::<u8>::empty());
                        assert(pos == n - 1);
                    }
                }
            }
        }
    }
}

/// The same, one stage later: what can start where `cursor` would sit.
proof fn batch_stage_cursor(b: Seq<u8>, bv: BatchView, pos: int, n: int)
    requires
        prefix_at(b, pos, bat_tail1(bv)),
        pos + bat_tail1(bv).len() == n - 1,
        b.len() == n,
    ensures
        bv.cursor is Some ==> prefix_at(b, pos, el_doc(3u8, kb_cursor(), cursor_body(bv.cursor.unwrap())))
            && is_key_at(b, pos, kb_cursor()),
        bv.cursor is None ==> !is_key_at(b, pos, kb_cursor()),
{
    lemma_option_keys();
    if bv.cursor is Some {
        lemma_prefix_concat(
            b,
            pos,
            el_doc(3u8, kb_cursor(), cursor_body(bv.cursor.unwrap())),
            bat_tail2(bv),
        );
        lemma_el_key(b, pos, 3u8, kb_cursor(), doc_bytes(cursor_body(bv.cursor.unwrap())));
    } else {
        assert(bat_tail1(bv) =~= bat_tail2(bv));
        if is_key_at(b, pos, kb_cursor()) {
            if bv.explain is Some {
                lemma_prefix_concat(b, pos, el_scalar(kb_explain(), bv.explain.unwrap()), bat_tail3(bv));
                lemma_scalar_key_unique(b, pos, kb_explain(), bv.explain.unwrap(), kb_cursor());
            } else {
                assert(bat_tail2(bv) =~= bat_tail3(bv));
                if bv.vars is Some {
                    assert(bat_tail3(bv) == el_scalar(kb_vars(), bv.vars.unwrap()));
                    assert(prefix_at(b, pos, el_scalar(kb_vars(), bv.vars.unwrap())));
                    lemma_scalar_key_unique(b, pos, kb_vars(), bv.vars.unwrap(), kb_cursor());
                } else {
                    assert(bat_tail3(bv) =~= Seq::<u8>::empty());
                    assert(pos == n - 1);
                }
            }
        }
    }
}

/// The same, one stage later: what can start where `explain` would sit.
proof fn batch_stage_explain(b: Seq<u8>, bv: BatchView, pos: int, n: int)
    requires
        prefix_at(b, pos, bat_tail2(bv)),
        pos + bat_tail2(bv).len() == n - 1,
        b.len() == n,
    ensures
        bv.explain is Some ==> prefix_at(b, pos, el_scalar(kb_explain(), bv.explain.unwrap()))
            && is_key_at(b, pos, kb_explain()),
        bv.explain is None ==> !is_key_at(b, pos, kb_explain()),
{
    lemma_option_keys();
    if bv.explain is Some {
        lemma_prefix_concat(b, pos, el_scalar(kb_explain(), bv.explain.unwrap()), bat_tail3(bv));
        match bv.explain.unwrap() {
            ScalarView::Int32(x) => {
                lemma_el_key(b, pos, 16u8, kb_explain(), spec_u32_to_le_bytes(x as u32));
            },
            ScalarView::Int64(x) => {
                lemma_el_key(b, pos, 18u8, kb_explain(), spec_u64_to_le_bytes(x as u64));
            },
            ScalarView::Text(t) => {
                lemma_el_key(b, pos, 2u8, kb_explain(), lp_str(t));
            },
            ScalarView::Bool(x) => {
                lemma_el_key(b, pos, 8u8, kb_explain(), seq![if x { 1u8 } else { 0u8 }]);
            },
            ScalarView::Null => {
                assert(el_head(10u8, kb_explain()) + Seq::<u8>::empty() =~= el_null(kb_explain()));
                lemma_el_key(b, pos, 10u8, kb_explain(), Seq::<u8>::empty());
            },
        }
    } else {
        assert(bat_tail2(bv) =~= bat_tail3(bv));
        if is_key_at(b, pos, kb_explain()) {
            if bv.vars is Some {
                assert(bat_tail3(bv) == el_scalar(kb_vars(), bv.vars.unwrap()));
                assert(prefix_at(b, pos, el_scalar(kb_vars(), bv.vars.unwrap())));
                lemma_scalar_key_unique(b, pos, kb_vars(), bv.vars.unwrap(), kb_explain());
            } else {
                assert(bat_tail3(bv) =~= Seq::<u8>::empty());
                assert(pos == n - 1);
            }
        }
    }
}

/// The same, one stage later: what can start where `vars` would sit.
proof fn batch_stage_vars(b: Seq<u8>, bv: BatchView, pos: int, n: int)
    requires
        prefix_at(b, pos, bat_tail3(bv)),
        pos + bat_tail3(bv).len() == n - 1,
        b.len() == n,
    ensures
        bv.vars is Some ==> prefix_at(b, pos, el_scalar(kb_vars(), bv.vars.unwrap()))
            && is_key_at(b, pos, kb_vars()),
        bv.vars is None ==> !is_key_at(b, pos, kb_vars()) && pos == n - 1,
{
    lemma_option_keys();
    if bv.vars is Some {
        assert(bat_tail3(bv) == el_scalar(kb_vars(), bv.vars.unwrap()));
        match bv.vars.unwrap() {
            ScalarView::Int32(x) => {
                lemma_el_key(b, pos, 16u8, kb_vars(), spec_u32_to_le_bytes(x as u32));
            },
            ScalarView::Int64(x) => {
                lemma_el_key(b, pos, 18u8, kb_vars(), spec_u64_to_le_bytes(x as u64));
            },
            ScalarView::Text(t) => {
                lemma_el_key(b, pos, 2u8, kb_vars(), lp_str(t));
            },
            ScalarView::Bool(x) => {
                lemma_el_key(b, pos, 8u8, kb_vars(), seq![if x { 1u8 } else { 0u8 }]);
            },
            ScalarView::Null => {
                assert(el_head(10u8, kb_vars()) + Seq::<u8>::empty() =~= el_null(kb_vars()));
                lemma_el_key(b, pos, 10u8, kb_vars(), Seq::<u8>::empty());
            },
        }
    } else {
        assert(bat_tail3(bv) =~= Seq::<u8>::empty());
        assert(pos == n - 1);
    }
}

/// The trailing two optional response fields, starting at `pos`; the
/// element list must end one byte before the end of the buffer.
#[verifier::rlimit(100)]
#[verifier::spinoff_prover]
fn parse_batch_late(buf: &[u8], pos: usize) -> (r: Option<(
    (Option<BsonScalar>, Option<BsonScalar>),
    usize,
)>)
    requires
        pos <= buf@.len() <= max_doc_len(),
    ensures
        r matches Some(bp) ==> pos <= bp.1 <= buf@.len() && buf@.subrange(pos as int, bp.1 as int)
            == (match bp.0.0 {
            Some(v) => el_scalar(kb_explain(), v@),
            None => Seq::<u8>::empty(),
        }) + (match bp.0.1 {
            Some(v) => el_scalar(kb_vars(), v@),
            None => Seq::<u8>::empty(),
        }),
        forall|bv: BatchView|
            #[trigger] prefix_at(buf@, pos as int, bat_tail2(bv)) && pos + bat_tail2(bv).len()
                == buf@.len() - 1 ==> (r matches Some(bp) && (match bp.0.0 {
                Some(v) => bv.explain == Some(v@),
                None => bv.explain is None,
            }) && (match bp.0.1 {
                Some(v) => bv.vars == Some(v@),
                None => bv.vars is None,
            }) && bp.1 as int == buf@.len() - 1),
{
    proof {
        vstd::bytes::lemma_auto_spec_u32_to_from_le_bytes();
        lemma_option_keys();
    }
    let n = buf.len();
    let has_ex = peek_key(buf, pos, key_explain().as_slice());
    let explain: Option<BsonScalar>;
    let c3: usize;
    if has_ex {
        let xo = parse_scalar_el(buf, pos, key_explain().as_slice());
        if xo.is_none() {
            proof {
                assert forall|bv: BatchView|
                    #[trigger] prefix_at(buf@, pos as int, bat_tail2(bv)) && pos + bat_tail2(
                        bv,
                    ).len() == buf@.len() - 1 implies false by {
                    batch_stage_explain(buf@, bv, pos as int, n as int);
                }
            }
            return None;
        }
        let (v, p) = xo.unwrap();
        explain = Some(v);
        c3 = p;
    } else {
        explain = None;
        c3 = pos;
    }
    proof {
        assert forall|bv: BatchView|
            #[trigger] prefix_at(buf@, pos as int, bat_tail2(bv)) && pos + bat_tail2(bv).len()
                == buf@.len() - 1 implies (match explain {
            Some(v) => bv.explain == Some(v@),
            None => bv.explain is None,
        }) && prefix_at(buf@, c3 as int, bat_tail3(bv)) && c3 + bat_tail3(bv).len() == buf@.len()
            - 1 by {
            batch_stage_explain(buf@, bv, pos as int, n as int);
            if bv.explain is Some {
                lemma_prefix_concat(
                    buf@,
                    pos as int,
                    el_scalar(kb_explain(), bv.explain.unwrap()),
                    bat_tail3(bv),
                );
            } else {
                assert(bat_tail2(bv) =~= bat_tail3(bv));
            }
        }
    }
    let has_va = peek_key(buf, c3, key_vars().as_slice());
    let vars: Option<BsonScalar>;
    let c4: usize;
    if has_va {
        let vo = parse_scalar_el(buf, c3, key_vars().as_slice());
        if vo.is_none() {
            proof {
                assert forall|bv: BatchView|
                    #[trigger] prefix_at(buf@, pos as int, bat_tail2(bv)) && pos + bat_tail2(
                        bv,
                    ).len() == buf@.len() - 1 implies false by {
                    batch_stage_vars(buf@, bv, c3 as int, n as int);
                }
            }
            return None;
        }
        let (v, p) = vo.unwrap();
        vars = Some(v);
        c4 = p;
    } else {
        vars = None;
        c4 = c3;
    }
    proof {
        assert(buf@.subrange(pos as int, c4 as int) =~= buf@.subrange(pos as int, c3 as int)
            + buf@.subrange(c3 as int, c4 as int));
        if explain is None {
            assert(buf@.subrange(pos as int, pos as int) =~= Seq::<u8>::empty());
        }
        if vars is None {
            assert(buf@.subrange(c3 as int, c3 as int) =~= Seq::<u8>::empty());
        }
        assert forall|bv: BatchView|
            #[trigger] prefix_at(buf@, pos as int, bat_tail2(bv)) && pos + bat_tail2(bv).len()
                == buf@.len() - 1 implies (match vars {
            Some(v) => bv.vars == Some(v@),
            None => bv.vars is None,
        }) && c4 as int == buf@.len() - 1 by {
            batch_stage_vars(buf@, bv, c3 as int, n as int);
            if bv.vars is Some {
                assert(bat_tail3(bv) == el_scalar(kb_vars(), bv.vars.unwrap()));
            } else {
                assert(bat_tail3(bv) =~= Seq::<u8>::empty());
            }
        }
    }
    Some(((explain, vars), c4))
}

/// The optional response fields, in order, starting at `pos`; the element
/// list must end one byte before the end of the buffer. `ok` is the value
/// already read for the mandatory leading field.
#[verifier::rlimit(100)]
#[verifier::spinoff_prover]
fn parse_batch_opts(buf: &[u8], pos: usize, ok: u8) -> (r: Option<(MongotCursorBatch, usize)>)
    requires
        pos <= buf@.len() <= max_doc_len(),
    ensures
        r matches Some(bp) ==> pos <= bp.1 <= buf@.len() && bp.0@.ok == ok && buf@.subrange(
            pos as int,
            bp.1 as int,
        ) == bat_tail0(bp.0@),
        forall|bv: BatchView|
            #[trigger] prefix_at(buf@, pos as int, bat_tail0(bv)) && pos + bat_tail0(bv).len()
                == buf@.len() - 1 && bv.ok == ok ==> (r matches Some(bp) && bp.0@ == bv && bp.1
                as int == buf@.len() - 1),
{
    proof {
        vstd::bytes::lemma_auto_spec_u32_to_from_le_bytes();
        lemma_option_keys();
    }
    let n = buf.len();
    let has_em = peek_key(buf, pos, key_errmsg().as_slice());
    let errmsg: Option<String>;
    let c1: usize;
    if has_em {
        let eo = parse_str_el(buf, pos, key_errmsg().as_slice());
        if eo.is_none() {
            proof {
                assert forall|bv: BatchView|
                    #[trigger] prefix_at(buf@, pos as int, bat_tail0(bv)) && pos + bat_tail0(
                        bv,
                    ).len() == buf@.len() - 1 && bv.ok == ok implies false by {
                    batch_stage_errmsg(buf@, bv, pos as int, n as int);
                }
            }
            return None;
        }
        let (s, p) = eo.unwrap();
        errmsg = Some(s);
        c1 = p;
    } else {
        errmsg = None;
        c1 = pos;
    }
    proof {
        assert forall|bv: BatchView|
            #[trigger] prefix_at(buf@, pos as int, bat_tail0(bv)) && pos + bat_tail0(bv).len()
                == buf@.len() - 1 && bv.ok == ok implies (match errmsg {
            Some(s) => bv.errmsg == Some(s@),
            None => bv.errmsg is None,
        }) && prefix_at(buf@, c1 as int, bat_tail1(bv)) && c1 + bat_tail1(bv).len() == buf@.len()
            - 1 by {
            batch_stage_errmsg(buf@, bv, pos as int, n as int);
            if bv.errmsg is Some {
                lemma_prefix_concat(
                    buf@,
                    pos as int,
                    el_str(kb_errmsg(), bv.errmsg.unwrap()),
                    bat_tail1(bv),
                );
            } else {
                assert(bat_tail0(bv) =~= bat_tail1(bv));
            }
        }
    }
    let has_cu = peek_key(buf, c1, key_cursor().as_slice());
    let cursor: Option<MongotCursorResult>;
    let c2: usize;
    if has_cu {
        let co = parse_cursor_el(buf, c1);
        if co.is_none() {
            proof {
                assert forall|bv: BatchView|
                    #[trigger] prefix_at(buf@, pos as int, bat_tail0(bv)) && pos + bat_tail0(
                        bv,
                    ).len() == buf@.len() - 1 && bv.ok == ok implies false by {
                    batch_stage_cursor(buf@, bv, c1 as int, n as int);
                }
            }
            return None;
        }
        let (c, p) = co.unwrap();
        cursor = Some(c);
        c2 = p;
    } else {
        cursor = None;
        c2 = c1;
    }
    proof {
        assert forall|bv: BatchView|
            #[trigger] prefix_at(buf@, pos as int, bat_tail0(bv)) && pos + bat_tail0(bv).len()
                == buf@.len() - 1 && bv.ok == ok implies (match cursor {
            Some(c) => bv.cursor == Some(c@),
            None => bv.cursor is None,
        }) && prefix_at(buf@, c2 as int, bat_tail2(bv)) && c2 + bat_tail2(bv).len() == buf@.len()
            - 1 by {
            batch_stage_cursor(buf@, bv, c1 as int, n as int);
            if bv.cursor is Some {
                lemma_prefix_concat(
                    buf@,
                    c1 as int,
                    el_doc(3u8, kb_cursor(), cursor_body(bv.cursor.unwrap())),
                    bat_tail2(bv),
                );
            } else {
                assert(bat_tail1(bv) =~= bat_tail2(bv));
            }
        }
    }
    let lo = parse_batch_late(buf, c2);
    if lo.is_none() {
        return None;
    }
    let (ev, c4) = lo.unwrap();
    let (explain, vars) = ev;
    let out = MongotCursorBatch { ok, errmsg, cursor, explain, vars };
    proof {
        assert(buf@.subrange(c2 as int, c4 as int) == bat_tail2(out@)) by {
            if explain is None {
                assert(bat_tail2(out@) =~= Seq::<u8>::empty() + bat_tail3(out@));
            }
            if vars is None {
                assert(bat_tail3(out@) =~= Seq::<u8>::empty());
            }
        }
        assert(buf@.subrange(c1 as int, c4 as int) == bat_tail1(out@)) by {
            assert(buf@.subrange(c1 as int, c4 as int) =~= buf@.subrange(c1 as int, c2 as int)
                + buf@.subrange(c2 as int, c4 as int));
            if cursor is None {
                assert(buf@.subrange(c1 as int, c1 as int) =~= Seq::<u8>::empty());
                assert(bat_tail1(out@) =~= Seq::<u8>::empty() + bat_tail2(out@));
            }
        }
        assert(buf@.subrange(pos as int, c4 as int) == bat_tail0(out@)) by {
            assert(buf@.subrange(pos as int, c4 as int) =~= buf@.subrange(pos as int, c1 as int)
                + buf@.subrange(c1 as int, c4 as int));
            if errmsg is None {
                assert(buf@.subrange(pos as int, pos as int) =~= Seq::<u8>::empty());
                assert(bat_tail0(out@) =~= Seq::<u8>::empty() + bat_tail1(out@));
            }
        }
        assert forall|bv: BatchView|
            #[trigger] prefix_at(buf@, pos as int, bat_tail0(bv)) && pos + bat_tail0(bv).len()
                == buf@.len() - 1 && bv.ok == ok implies out@ =~= bv && c4 as int == buf@.len()
            - 1 by {
        }
    }
    Some((out, c4))
}

/// Reads one complete response document from `buf`. An empty buffer yields
/// `Ok(None)`: the "nothing to decode yet" signal, never an error. A
/// non-empty buffer either holds exactly the wire image of one response,
/// which is returned, or the call fails. Absent optional fields decode as
/// absent, never as default values.
#[verifier::rlimit(100)]
#[verifier::spinoff_prover]
pub fn decode_batch(buf: &[u8]) -> (r: Result<Option<MongotCursorBatch>, CodecError>)
    ensures
        (r == Ok::<Option<MongotCursorBatch>, CodecError>(None)) <==> buf@.len() == 0,
        r matches Ok(Some(b)) ==> batch_fits(b@) && buf@ == batch_bytes(b@),
        forall|bv: BatchView|
            batch_fits(bv) && buf@ == #[trigger] batch_bytes(bv) ==> (r matches Ok(Some(b)) && b@
                == bv),
        r matches Err(e) ==> e is DeserializationFailure,
{
    proof {
        vstd::bytes::lemma_auto_spec_u32_to_from_le_bytes();
    }
    let n = buf.len();
    if n == 0 {
        return Ok(None);
    }
    if n > 0x7FFF_FFFF {
        return Err(CodecError::DeserializationFailure("document too large"));
    }
    proof {
        assert forall|bv: BatchView|
            batch_fits(bv) && buf@ == #[trigger] batch_bytes(bv) implies prefix_at(
            buf@,
            4,
            batch_body(bv),
        ) && 4 + batch_body(bv).len() == n - 1 && buf@[n - 1] == 0 && prefix_at(
            buf@,
            0,
            spec_u32_to_le_bytes((batch_body(bv).len() + 5) as u32),
        ) && prefix_at(buf@, 4, el_i32(kb_ok(), bv.ok as i32)) by {
            assert(buf@.subrange(0, n as int) =~= buf@);
            assert(prefix_at(buf@, 0, batch_bytes(bv)));
            lemma_prefix_concat(
                buf@,
                0,
                spec_u32_to_le_bytes((batch_body(bv).len() + 5) as u32),
                batch_body(bv) + seq![0u8],
            );
            lemma_prefix_concat(buf@, 4, batch_body(bv), seq![0u8]);
            lemma_prefix_first(buf@, 4 + batch_body(bv).len() as int, seq![0u8]);
            lemma_prefix_concat(buf@, 4, el_i32(kb_ok(), bv.ok as i32), bat_tail0(bv));
        }
    }
    let lo = parse_u32_at(buf, 0);
    if lo.is_none() {
        return Err(CodecError::DeserializationFailure("document header truncated"));
    }
    let (lw, _hp) = lo.unwrap();
    if lw as usize != n {
        return Err(CodecError::DeserializationFailure("document length mismatch"));
    }
    let oo = parse_i32_el(buf, 4, key_ok().as_slice());
    if oo.is_none() {
        return Err(CodecError::DeserializationFailure("ok field malformed"));
    }
    let (okv, c0) = oo.unwrap();
    if okv < 0 || okv > 255 {
        proof {
            assert forall|bv: BatchView|
                batch_fits(bv) && buf@ == #[trigger] batch_bytes(bv) implies false by {
                assert(0 <= bv.ok as i32 <= 255);
            }
        }
        return Err(CodecError::DeserializationFailure("ok field out of range"));
    }
    let ok = okv as u8;
    proof {
        assert forall|bv: BatchView|
            batch_fits(bv) && buf@ == #[trigger] batch_bytes(bv) implies ok == bv.ok && prefix_at(
            buf@,
            c0 as int,
            bat_tail0(bv),
        ) && c0 + bat_tail0(bv).len() == n - 1 by {
            lemma_prefix_concat(buf@, 4, el_i32(kb_ok(), bv.ok as i32), bat_tail0(bv));
        }
    }
    let bo = parse_batch_opts(buf, c0, ok);
    if bo.is_none() {
        return Err(CodecError::DeserializationFailure("response document malformed"));
    }
    let (out, c4) = bo.unwrap();
    if c4 != n - 1 {
        return Err(CodecError::DeserializationFailure("document has trailing bytes"));
    }
    if byte_at(buf, n - 1) != 0 {
        return Err(CodecError::DeserializationFailure("document not terminated"));
    }
    proof {
        assert(buf@.subrange(4, c4 as int) =~= buf@.subrange(4, c0 as int) + buf@.subrange(
            c0 as int,
            c4 as int,
        ));
        assert((out@.ok as i32) == okv);
        assert(buf@.subrange(4, c4 as int) == batch_body(out@));
        assert(batch_body(out@).len() + 5 == n);
        assert(buf@ =~= buf@.subrange(0, 4) + buf@.subrange(4, c4 as int) + buf@.subrange(
            c4 as int,
            n as int,
        ));
        assert(buf@.subrange(c4 as int, n as int) =~= seq![0u8]);
        assert(buf@ == batch_bytes(out@));
        assert(batch_fits(out@));
    }
    Ok(Some(out))
}

} // verus!
