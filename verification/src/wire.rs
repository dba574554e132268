//! The binary grammar of the two document shapes: what every element, key and
//! length prefix looks like on the wire. These spec functions are the single
//! source of truth that both the encoder and the decoder are proved against.

use vstd::prelude::*;
use vstd::bytes::{spec_u32_to_le_bytes, spec_u64_to_le_bytes};
use vstd::utf8::encode_utf8;
use crate::model::{ScalarView, ResultView, CursorView, BatchView, CommandView, ResultType};

verus! {

/// The largest byte size a document may have: its length prefix is a signed
/// 32-bit integer.
pub open spec fn max_doc_len() -> int {
    0x7FFF_FFFF
}

/// A key followed by its terminating zero byte.
pub open spec fn cstr(k: Seq<u8>) -> Seq<u8> {
    k + seq![0u8]
}

/// An element header: one type tag, then the key as a zero-terminated string.
pub open spec fn el_head(tag: u8, k: Seq<u8>) -> Seq<u8> {
    seq![tag] + cstr(k)
}

/// A length-prefixed string value over raw bytes: a 32-bit count of the bytes
/// plus the trailing zero, the bytes themselves, then the zero.
pub open spec fn lp_bytes(b: Seq<u8>) -> Seq<u8> {
    spec_u32_to_le_bytes((b.len() + 1) as u32) + (b + seq![0u8])
}

/// A length-prefixed string value holding the UTF-8 encoding of `t`.
pub open spec fn lp_str(t: Seq<char>) -> Seq<u8> {
    lp_bytes(encode_utf8(t))
}

/// A string element.
pub open spec fn el_str(k: Seq<u8>, t: Seq<char>) -> Seq<u8> {
    el_head(2u8, k) + lp_str(t)
}

/// A 32-bit integer element.
pub open spec fn el_i32(k: Seq<u8>, v: i32) -> Seq<u8> {
    el_head(16u8, k) + spec_u32_to_le_bytes(v as u32)
}

/// A 64-bit integer element.
pub open spec fn el_i64(k: Seq<u8>, v: i64) -> Seq<u8> {
    el_head(18u8, k) + spec_u64_to_le_bytes(v as u64)
}

/// A boolean element.
pub open spec fn el_bool(k: Seq<u8>, b: bool) -> Seq<u8> {
    el_head(8u8, k) + seq![if b { 1u8 } else { 0u8 }]
}

/// A null element.
pub open spec fn el_null(k: Seq<u8>) -> Seq<u8> {
    el_head(10u8, k)
}

/// A binary element of subtype 4 holding the 16 UUID bytes.
pub open spec fn el_uuid(k: Seq<u8>, u: Seq<u8>) -> Seq<u8> {
    el_head(5u8, k) + spec_u32_to_le_bytes(16u32) + seq![4u8] + u
}

/// A whole document: its total length (which counts the prefix itself and the
/// final zero), the element list, and the terminating zero byte.
pub open spec fn doc_bytes(body: Seq<u8>) -> Seq<u8> {
    spec_u32_to_le_bytes((body.len() + 5) as u32) + (body + seq![0u8])
}

/// An embedded document (tag 3) or array (tag 4) element.
pub open spec fn el_doc(tag: u8, k: Seq<u8>, body: Seq<u8>) -> Seq<u8> {
    el_head(tag, k) + doc_bytes(body)
}

/// A generic scalar element: the tag is chosen by the value's type.
pub open spec fn el_scalar(k: Seq<u8>, v: ScalarView) -> Seq<u8> {
    match v {
        ScalarView::Int32(n) => el_i32(k, n),
        ScalarView::Int64(n) => el_i64(k, n),
        ScalarView::Text(t) => el_str(k, t),
        ScalarView::Bool(b) => el_bool(k, b),
        ScalarView::Null => el_null(k),
    }
}

/// The decimal digits of `n`, most significant first: the key of the `n`th
/// array slot.
pub open spec fn dec_key(n: nat) -> Seq<u8>
    decreases n,
{
    if n < 10 {
        seq![(0x30 + n) as u8]
    } else {
        dec_key(n / 10) + seq![(0x30 + n % 10) as u8]
    }
}

/// The value name of a result-type marker.
pub open spec fn type_name_bytes(t: ResultType) -> Seq<u8> {
    match t {
        ResultType::Results => kb_results_name(),
        ResultType::Meta => kb_meta_name(),
    }
}

/// The `type` element: a string element whose value names the page kind.
pub open spec fn el_type(t: ResultType) -> Seq<u8> {
    el_head(2u8, kb_type_name()) + lp_bytes(type_name_bytes(t))
}

/// The elements of the query-vector array from slot `i` on.
pub open spec fn qv_body_from(v: Seq<i64>, i: int) -> Seq<u8>
    decreases v.len() - i,
{
    if i < 0 || i >= v.len() {
        Seq::<u8>::empty()
    } else {
        el_i64(dec_key(i as nat), v[i]) + qv_body_from(v, i + 1)
    }
}

/// The element list of the query-vector array.
pub open spec fn qv_body(v: Seq<i64>) -> Seq<u8> {
    qv_body_from(v, 0)
}

/// The single `_id` element of one search result document.
pub open spec fn result_body(r: ResultView) -> Seq<u8> {
    el_scalar(kb_result_id(), r.id)
}

/// The elements of the result batch array from slot `i` on: each slot is an
/// embedded document holding one `_id` element.
pub open spec fn results_body_from(v: Seq<ResultView>, i: int) -> Seq<u8>
    decreases v.len() - i,
{
    if i < 0 || i >= v.len() {
        Seq::<u8>::empty()
    } else {
        el_doc(3u8, dec_key(i as nat), result_body(v[i])) + results_body_from(v, i + 1)
    }
}

/// The element list of the result batch array.
pub open spec fn results_body(v: Seq<ResultView>) -> Seq<u8> {
    results_body_from(v, 0)
}

/// The cursor elements after `nextBatch`.
pub open spec fn cur_tail2(c: CursorView) -> Seq<u8> {
    el_str(kb_ns(), c.ns) + (match c.result_type {
        Some(t) => el_type(t),
        None => Seq::<u8>::empty(),
    })
}

/// The cursor elements after `id`.
pub open spec fn cur_tail1(c: CursorView) -> Seq<u8> {
    el_doc(4u8, kb_next_batch(), results_body(c.next_batch)) + cur_tail2(c)
}

/// The element list of the cursor document. The optional `type` marker is
/// omitted when absent.
pub open spec fn cursor_body(c: CursorView) -> Seq<u8> {
    el_i64(kb_id(), c.id as i64) + cur_tail1(c)
}

/// The response elements after `explain`.
pub open spec fn bat_tail3(b: BatchView) -> Seq<u8> {
    match b.vars {
        Some(v) => el_scalar(kb_vars(), v),
        None => Seq::<u8>::empty(),
    }
}

/// The response elements after `cursor`.
pub open spec fn bat_tail2(b: BatchView) -> Seq<u8> {
    (match b.explain {
        Some(v) => el_scalar(kb_explain(), v),
        None => Seq::<u8>::empty(),
    }) + bat_tail3(b)
}

/// The response elements after `errmsg`.
pub open spec fn bat_tail1(b: BatchView) -> Seq<u8> {
    (match b.cursor {
        Some(c) => el_doc(3u8, kb_cursor(), cursor_body(c)),
        None => Seq::<u8>::empty(),
    }) + bat_tail2(b)
}

/// The response elements after `ok`.
pub open spec fn bat_tail0(b: BatchView) -> Seq<u8> {
    (match b.errmsg {
        Some(t) => el_str(kb_errmsg(), t),
        None => Seq::<u8>::empty(),
    }) + bat_tail1(b)
}

/// The element list of a response document. Absent optional fields are
/// omitted entirely.
pub open spec fn batch_body(b: BatchView) -> Seq<u8> {
    el_i32(kb_ok(), b.ok as i32) + bat_tail0(b)
}

/// The complete wire image of a response document.
pub open spec fn batch_bytes(b: BatchView) -> Seq<u8> {
    doc_bytes(batch_body(b))
}

/// The request elements after `limit`.
pub open spec fn cmd_tail6(c: CommandView) -> Seq<u8> {
    el_i64(kb_limit(), c.limit) + el_i64(kb_num_candidates(), c.num_candidates)
}

/// The request elements after `queryVector`.
pub open spec fn cmd_tail5(c: CommandView) -> Seq<u8> {
    el_str(kb_index(), c.index) + cmd_tail6(c)
}

/// The request elements after `path`.
pub open spec fn cmd_tail4(c: CommandView) -> Seq<u8> {
    el_doc(4u8, kb_query_vector(), qv_body(c.query_vector)) + cmd_tail5(c)
}

/// The request elements after `collectionUUID`.
pub open spec fn cmd_tail3(c: CommandView) -> Seq<u8> {
    el_str(kb_path(), c.path) + cmd_tail4(c)
}

/// The request elements after `$db`.
pub open spec fn cmd_tail2(c: CommandView) -> Seq<u8> {
    el_uuid(kb_collection_uuid(), c.collection_uuid) + cmd_tail3(c)
}

/// The request elements after `vectorSearch`.
pub open spec fn cmd_tail1(c: CommandView) -> Seq<u8> {
    el_str(kb_db(), c.db) + cmd_tail2(c)
}

/// The element list of a request document, in the fixed field order.
pub open spec fn command_body(c: CommandView) -> Seq<u8> {
    el_str(kb_vector_search(), c.vector_search) + cmd_tail1(c)
}

/// The complete wire image of a request document.
pub open spec fn command_bytes(c: CommandView) -> Seq<u8> {
    doc_bytes(command_body(c))
}

/// A request document can be written only when its total size fits the
/// 32-bit length prefix.
pub open spec fn command_fits(c: CommandView) -> bool {
    command_bytes(c).len() <= max_doc_len()
}

/// A response document can be written only when its total size fits the
/// 32-bit length prefix.
pub open spec fn batch_fits(b: BatchView) -> bool {
    batch_bytes(b).len() <= max_doc_len()
}

/// The wire bytes of `vectorSearch`.
pub open spec fn kb_vector_search() -> Seq<u8> {
    seq![118u8, 101, 99, 116, 111, 114, 83, 101, 97, 114, 99, 104]
}

/// The wire bytes of `$db`.
pub open spec fn kb_db() -> Seq<u8> {
    seq![36u8, 100, 98]
}

/// The wire bytes of `collectionUUID`.
pub open spec fn kb_collection_uuid() -> Seq<u8> {
    seq![99u8, 111, 108, 108, 101, 99, 116, 105, 111, 110, 85, 85, 73, 68]
}

/// The wire bytes of `path`.
pub open spec fn kb_path() -> Seq<u8> {
    seq![112u8, 97, 116, 104]
}

/// The wire bytes of `queryVector`.
pub open spec fn kb_query_vector() -> Seq<u8> {
    seq![113u8, 117, 101, 114, 121, 86, 101, 99, 116, 111, 114]
}

/// The wire bytes of `index`.
pub open spec fn kb_index() -> Seq<u8> {
    seq![105u8, 110, 100, 101, 120]
}

/// The wire bytes of `limit`.
pub open spec fn kb_limit() -> Seq<u8> {
    seq![108u8, 105, 109, 105, 116]
}

/// The wire bytes of `numCandidates`.
pub open spec fn kb_num_candidates() -> Seq<u8> {
    seq![110u8, 117, 109, 67, 97, 110, 100, 105, 100, 97, 116, 101, 115]
}

/// The wire bytes of `ok`.
pub open spec fn kb_ok() -> Seq<u8> {
    seq![111u8, 107]
}

/// The wire bytes of `errmsg`.
pub open spec fn kb_errmsg() -> Seq<u8> {
    seq![101u8, 114, 114, 109, 115, 103]
}

/// The wire bytes of `cursor`.
pub open spec fn kb_cursor() -> Seq<u8> {
    seq![99u8, 117, 114, 115, 111, 114]
}

/// The wire bytes of `explain`.
pub open spec fn kb_explain() -> Seq<u8> {
    seq![101u8, 120, 112, 108, 97, 105, 110]
}

/// The wire bytes of `vars`.
pub open spec fn kb_vars() -> Seq<u8> {
    seq![118u8, 97, 114, 115]
}

/// The wire bytes of `id`.
pub open spec fn kb_id() -> Seq<u8> {
    seq![105u8, 100]
}

/// The wire bytes of `nextBatch`.
pub open spec fn kb_next_batch() -> Seq<u8> {
    seq![110u8, 101, 120, 116, 66, 97, 116, 99, 104]
}

/// The wire bytes of `ns`.
pub open spec fn kb_ns() -> Seq<u8> {
    seq![110u8, 115]
}

/// The wire bytes of `type`.
pub open spec fn kb_type_name() -> Seq<u8> {
    seq![116u8, 121, 112, 101]
}

/// The wire bytes of `_id`.
pub open spec fn kb_result_id() -> Seq<u8> {
    seq![95u8, 105, 100]
}

/// The wire bytes of `Results`.
pub open spec fn kb_results_name() -> Seq<u8> {
    seq![82u8, 101, 115, 117, 108, 116, 115]
}

/// The wire bytes of `Meta`.
pub open spec fn kb_meta_name() -> Seq<u8> {
    seq![77u8, 101, 116, 97]
}

/// The wire bytes of `vectorSearch`, as a vector.
pub fn key_vector_search() -> (r: Vec<u8>)
    ensures
        r@ == kb_vector_search(),
{
    let mut v: Vec<u8> = Vec::new();
    v.push(118);
    v.push(101);
    v.push(99);
    v.push(116);
    v.push(111);
    v.push(114);
    v.push(83);
    v.push(101);
    v.push(97);
    v.push(114);
    v.push(99);
    v.push(104);
    proof { assert(v@ =~= kb_vector_search()); }
    v
}

/// The wire bytes of `$db`, as a vector.
pub fn key_db() -> (r: Vec<u8>)
    ensures
        r@ == kb_db(),
{
    let mut v: Vec<u8> = Vec::new();
    v.push(36);
    v.push(100);
    v.push(98);
    proof { assert(v@ =~= kb_db()); }
    v
}

/// The wire bytes of `collectionUUID`, as a vector.
pub fn key_collection_uuid() -> (r: Vec<u8>)
    ensures
        r@ == kb_collection_uuid(),
{
    let mut v: Vec<u8> = Vec::new();
    v.push(99);
    v.push(111);
    v.push(108);
    v.push(108);
    v.push(101);
    v.push(99);
    v.push(116);
    v.push(105);
    v.push(111);
    v.push(110);
    v.push(85);
    v.push(85);
    v.push(73);
    v.push(68);
    proof { assert(v@ =~= kb_collection_uuid()); }
    v
}

/// The wire bytes of `path`, as a vector.
pub fn key_path() -> (r: Vec<u8>)
    ensures
        r@ == kb_path(),
{
    let mut v: Vec<u8> = Vec::new();
    v.push(112);
    v.push(97);
    v.push(116);
    v.push(104);
    proof { assert(v@ =~= kb_path()); }
    v
}

/// The wire bytes of `queryVector`, as a vector.
pub fn key_query_vector() -> (r: Vec<u8>)
    ensures
        r@ == kb_query_vector(),
{
    let mut v: Vec<u8> = Vec::new();
    v.push(113);
    v.push(117);
    v.push(101);
    v.push(114);
    v.push(121);
    v.push(86);
    v.push(101);
    v.push(99);
    v.push(116);
    v.push(111);
    v.push(114);
    proof { assert(v@ =~= kb_query_vector()); }
    v
}

/// The wire bytes of `index`, as a vector.
pub fn key_index() -> (r: Vec<u8>)
    ensures
        r@ == kb_index(),
{
    let mut v: Vec<u8> = Vec::new();
    v.push(105);
    v.push(110);
    v.push(100);
    v.push(101);
    v.push(120);
    proof { assert(v@ =~= kb_index()); }
    v
}

/// The wire bytes of `limit`, as a vector.
pub fn key_limit() -> (r: Vec<u8>)
    ensures
        r@ == kb_limit(),
{
    let mut v: Vec<u8> = Vec::new();
    v.push(108);
    v.push(105);
    v.push(109);
    v.push(105);
    v.push(116);
    proof { assert(v@ =~= kb_limit()); }
    v
}

/// The wire bytes of `numCandidates`, as a vector.
pub fn key_num_candidates() -> (r: Vec<u8>)
    ensures
        r@ == kb_num_candidates(),
{
    let mut v: Vec<u8> = Vec::new();
    v.push(110);
    v.push(117);
    v.push(109);
    v.push(67);
    v.push(97);
    v.push(110);
    v.push(100);
    v.push(105);
    v.push(100);
    v.push(97);
    v.push(116);
    v.push(101);
    v.push(115);
    proof { assert(v@ =~= kb_num_candidates()); }
    v
}

/// The wire bytes of `ok`, as a vector.
pub fn key_ok() -> (r: Vec<u8>)
    ensures
        r@ == kb_ok(),
{
    let mut v: Vec<u8> = Vec::new();
    v.push(111);
    v.push(107);
    proof { assert(v@ =~= kb_ok()); }
    v
}

/// The wire bytes of `errmsg`, as a vector.
pub fn key_errmsg() -> (r: Vec<u8>)
    ensures
        r@ == kb_errmsg(),
{
    let mut v: Vec<u8> = Vec::new();
    v.push(101);
    v.push(114);
    v.push(114);
    v.push(109);
    v.push(115);
    v.push(103);
    proof { assert(v@ =~= kb_errmsg()); }
    v
}

/// The wire bytes of `cursor`, as a vector.
pub fn key_cursor() -> (r: Vec<u8>)
    ensures
        r@ == kb_cursor(),
{
    let mut v: Vec<u8> = Vec::new();
    v.push(99);
    v.push(117);
    v.push(114);
    v.push(115);
    v.push(111);
    v.push(114);
    proof { assert(v@ =~= kb_cursor()); }
    v
}

/// The wire bytes of `explain`, as a vector.
pub fn key_explain() -> (r: Vec<u8>)
    ensures
        r@ == kb_explain(),
{
    let mut v: Vec<u8> = Vec::new();
    v.push(101);
    v.push(120);
    v.push(112);
    v.push(108);
    v.push(97);
    v.push(105);
    v.push(110);
    proof { assert(v@ =~= kb_explain()); }
    v
}

/// The wire bytes of `vars`, as a vector.
pub fn key_vars() -> (r: Vec<u8>)
    ensures
        r@ == kb_vars(),
{
    let mut v: Vec<u8> = Vec::new();
    v.push(118);
    v.push(97);
    v.push(114);
    v.push(115);
    proof { assert(v@ =~= kb_vars()); }
    v
}

/// The wire bytes of `id`, as a vector.
pub fn key_id() -> (r: Vec<u8>)
    ensures
        r@ == kb_id(),
{
    let mut v: Vec<u8> = Vec::new();
    v.push(105);
    v.push(100);
    proof { assert(v@ =~= kb_id()); }
    v
}

/// The wire bytes of `nextBatch`, as a vector.
pub fn key_next_batch() -> (r: Vec<u8>)
    ensures
        r@ == kb_next_batch(),
{
    let mut v: Vec<u8> = Vec::new();
    v.push(110);
    v.push(101);
    v.push(120);
    v.push(116);
    v.push(66);
    v.push(97);
    v.push(116);
    v.push(99);
    v.push(104);
    proof { assert(v@ =~= kb_next_batch()); }
    v
}

/// The wire bytes of `ns`, as a vector.
pub fn key_ns() -> (r: Vec<u8>)
    ensures
        r@ == kb_ns(),
{
    let mut v: Vec<u8> = Vec::new();
    v.push(110);
    v.push(115);
    proof { assert(v@ =~= kb_ns()); }
    v
}

/// The wire bytes of `type`, as a vector.
pub fn key_type_name() -> (r: Vec<u8>)
    ensures
        r@ == kb_type_name(),
{
    let mut v: Vec<u8> = Vec::new();
    v.push(116);
    v.push(121);
    v.push(112);
    v.push(101);
    proof { assert(v@ =~= kb_type_name()); }
    v
}

/// The wire bytes of `_id`, as a vector.
pub fn key_result_id() -> (r: Vec<u8>)
    ensures
        r@ == kb_result_id(),
{
    let mut v: Vec<u8> = Vec::new();
    v.push(95);
    v.push(105);
    v.push(100);
    proof { assert(v@ =~= kb_result_id()); }
    v
}

/// The wire bytes of `Results`, as a vector.
pub fn key_results_name() -> (r: Vec<u8>)
    ensures
        r@ == kb_results_name(),
{
    let mut v: Vec<u8> = Vec::new();
    v.push(82);
    v.push(101);
    v.push(115);
    v.push(117);
    v.push(108);
    v.push(116);
    v.push(115);
    proof { assert(v@ =~= kb_results_name()); }
    v
}

/// The wire bytes of `Meta`, as a vector.
pub fn key_meta_name() -> (r: Vec<u8>)
    ensures
        r@ == kb_meta_name(),
{
    let mut v: Vec<u8> = Vec::new();
    v.push(77);
    v.push(101);
    v.push(116);
    v.push(97);
    proof { assert(v@ =~= kb_meta_name()); }
    v
}

} // verus!
