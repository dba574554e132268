use bson_codec::codec::{BsonCodec, BsonDecoder, BsonEncoder};
use bson_codec::model::{
    BsonScalar, CodecError, MongotCursorBatch, MongotCursorResult, ResultType, Uuid,
    VectorSearchCommand, VectorSearchResult,
};

fn fixed_uuid_bytes() -> Vec<u8> {
    // e954c0a6-61b3-477d-859c-2bac22e865a2
    vec![
        0xe9, 0x54, 0xc0, 0xa6, 0x61, 0xb3, 0x47, 0x7d, 0x85, 0x9c, 0x2b, 0xac, 0x22, 0xe8, 0x65,
        0xa2,
    ]
}

fn sample_command() -> VectorSearchCommand {
    VectorSearchCommand {
        vector_search: String::from("test"),
        db: String::from("test"),
        collection_uuid: Uuid::new(fixed_uuid_bytes()).unwrap(),
        path: String::from("description"),
        query_vector: vec![1, 2],
        index: String::from("default"),
        limit: 5,
        num_candidates: 50,
    }
}

fn sample_batch() -> MongotCursorBatch {
    MongotCursorBatch {
        ok: 1,
        errmsg: None,
        cursor: Some(MongotCursorResult {
            id: 42,
            next_batch: vec![
                VectorSearchResult { id: BsonScalar::Int64(7) },
                VectorSearchResult { id: BsonScalar::Text(String::from("doc-9")) },
            ],
            ns: String::from("test.collection"),
            result_type: Some(ResultType::Results),
        }),
        explain: None,
        vars: None,
    }
}

#[test]
fn roundtrip_command() {
    let mut codec: BsonCodec<VectorSearchCommand, MongotCursorBatch> = BsonCodec::default();
    let mut enc = codec.encoder();
    let mut bytes: Vec<u8> = Vec::new();
    enc.encode(&sample_command(), &mut bytes).unwrap();
    let mut dec: BsonDecoder<VectorSearchCommand> = BsonDecoder::new();
    let back = dec.decode(bytes.as_slice()).unwrap().unwrap();
    assert_eq!(back, sample_command());
}

#[test]
fn roundtrip_batch() {
    let mut enc: BsonEncoder<MongotCursorBatch> = BsonEncoder::new();
    let mut bytes: Vec<u8> = Vec::new();
    enc.encode(&sample_batch(), &mut bytes).unwrap();
    let mut codec: BsonCodec<VectorSearchCommand, MongotCursorBatch> = BsonCodec::default();
    let mut dec = codec.decoder();
    let back = dec.decode(bytes.as_slice()).unwrap().unwrap();
    assert_eq!(back, sample_batch());
}

#[test]
fn roundtrip_batch_all_fields() {
    let batch = MongotCursorBatch {
        ok: 0,
        errmsg: Some(String::from("index not found")),
        cursor: Some(MongotCursorResult {
            id: 0,
            next_batch: vec![],
            ns: String::from("db.c"),
            result_type: Some(ResultType::Meta),
        }),
        explain: Some(BsonScalar::Bool(true)),
        vars: Some(BsonScalar::Null),
    };
    let mut enc: BsonEncoder<MongotCursorBatch> = BsonEncoder::new();
    let mut bytes: Vec<u8> = Vec::new();
    enc.encode(&batch, &mut bytes).unwrap();
    let mut dec: BsonDecoder<MongotCursorBatch> = BsonDecoder::new();
    let back = dec.decode(bytes.as_slice()).unwrap().unwrap();
    assert_eq!(back, batch);
}

#[test]
fn empty_buffer_yields_none_not_error() {
    let mut dec_cmd: BsonDecoder<VectorSearchCommand> = BsonDecoder::new();
    assert!(matches!(dec_cmd.decode(&[]), Ok(None)));
    let mut dec_batch: BsonDecoder<MongotCursorBatch> = BsonDecoder::new();
    assert!(matches!(dec_batch.decode(&[]), Ok(None)));
}

#[test]
fn malformed_input_rejected() {
    let mut dec: BsonDecoder<MongotCursorBatch> = BsonDecoder::new();
    // arbitrary garbage
    let r = dec.decode(&[1, 2, 3]);
    assert!(matches!(r, Err(CodecError::DeserializationFailure(_))));
    // a correct document with its final byte cut off
    let mut enc: BsonEncoder<MongotCursorBatch> = BsonEncoder::new();
    let mut bytes: Vec<u8> = Vec::new();
    enc.encode(&sample_batch(), &mut bytes).unwrap();
    bytes.pop();
    let r2 = dec.decode(bytes.as_slice());
    assert!(matches!(r2, Err(CodecError::DeserializationFailure(_))));
    // a request document handed to the response decoder
    let mut enc_cmd: BsonEncoder<VectorSearchCommand> = BsonEncoder::new();
    let mut cmd_bytes: Vec<u8> = Vec::new();
    enc_cmd.encode(&sample_command(), &mut cmd_bytes).unwrap();
    let r3 = dec.decode(cmd_bytes.as_slice());
    assert!(matches!(r3, Err(CodecError::DeserializationFailure(_))));
}

#[test]
fn field_names_match_wire_contract() {
    let mut enc: BsonEncoder<VectorSearchCommand> = BsonEncoder::new();
    let mut bytes: Vec<u8> = Vec::new();
    enc.encode(&sample_command(), &mut bytes).unwrap();

    let doc = bson::Document::from_reader(bytes.as_slice()).unwrap();
    assert_eq!(doc.get_str("vectorSearch").unwrap(), "test");
    assert_eq!(doc.get_str("$db").unwrap(), "test");
    let bin = match doc.get("collectionUUID").unwrap() {
        bson::Bson::Binary(b) => b,
        other => panic!("collectionUUID has wrong type: {:?}", other),
    };
    assert_eq!(bin.subtype, bson::spec::BinarySubtype::Uuid);
    assert_eq!(bin.bytes, fixed_uuid_bytes());
    assert_eq!(doc.get_str("path").unwrap(), "description");
    let qv: Vec<i64> = doc
        .get_array("queryVector")
        .unwrap()
        .iter()
        .map(|b| b.as_i64().unwrap())
        .collect();
    assert_eq!(qv, vec![1, 2]);
    assert_eq!(doc.get_str("index").unwrap(), "default");
    assert_eq!(doc.get_i64("limit").unwrap(), 5);
    assert_eq!(doc.get_i64("numCandidates").unwrap(), 50);

    // field order and byte-level layout agree with the reference library
    let mut expected = bson::Document::new();
    expected.insert("vectorSearch", "test");
    expected.insert("$db", "test");
    expected.insert(
        "collectionUUID",
        bson::Bson::Binary(bson::Binary {
            subtype: bson::spec::BinarySubtype::Uuid,
            bytes: fixed_uuid_bytes(),
        }),
    );
    expected.insert("path", "description");
    expected.insert("queryVector", vec![1i64, 2i64]);
    expected.insert("index", "default");
    expected.insert("limit", 5i64);
    expected.insert("numCandidates", 50i64);
    assert_eq!(bytes, expected.to_vec().unwrap());
}

#[test]
fn absent_optional_fields_are_omitted() {
    let mut enc: BsonEncoder<MongotCursorBatch> = BsonEncoder::new();
    let mut bytes: Vec<u8> = Vec::new();
    enc.encode(&sample_batch(), &mut bytes).unwrap();
    let doc = bson::Document::from_reader(bytes.as_slice()).unwrap();
    assert!(!doc.contains_key("errmsg"));
    assert!(!doc.contains_key("explain"));
    assert!(!doc.contains_key("vars"));
    assert!(doc.contains_key("cursor"));
    assert_eq!(doc.get_i32("ok").unwrap(), 1);

    let mut dec: BsonDecoder<MongotCursorBatch> = BsonDecoder::new();
    let back = dec.decode(bytes.as_slice()).unwrap().unwrap();
    assert!(back.errmsg.is_none());
    assert!(back.explain.is_none());
    assert!(back.vars.is_none());
    assert!(back.cursor.is_some());
}

#[test]
fn encoder_and_decoder_hold_no_state() {
    let mut enc: BsonEncoder<MongotCursorBatch> = BsonEncoder::new();
    let other = MongotCursorBatch {
        ok: 0,
        errmsg: Some(String::from("first call")),
        cursor: None,
        explain: None,
        vars: None,
    };
    let mut first: Vec<u8> = Vec::new();
    enc.encode(&other, &mut first).unwrap();
    let mut reused: Vec<u8> = Vec::new();
    enc.encode(&sample_batch(), &mut reused).unwrap();
    let mut fresh_bytes: Vec<u8> = Vec::new();
    let mut fresh: BsonEncoder<MongotCursorBatch> = BsonEncoder::new();
    fresh.encode(&sample_batch(), &mut fresh_bytes).unwrap();
    assert_eq!(reused, fresh_bytes);

    let mut dec: BsonDecoder<MongotCursorBatch> = BsonDecoder::new();
    let _ = dec.decode(first.as_slice()).unwrap().unwrap();
    let again = dec.decode(reused.as_slice()).unwrap().unwrap();
    assert_eq!(again, sample_batch());
}

#[test]
fn oversized_uuid_is_a_serialization_failure() {
    let mut cmd = sample_command();
    cmd.collection_uuid = Uuid { bytes: vec![1, 2, 3] };
    let mut enc: BsonEncoder<VectorSearchCommand> = BsonEncoder::new();
    let mut bytes: Vec<u8> = Vec::new();
    let r = enc.encode(&cmd, &mut bytes);
    assert!(matches!(r, Err(CodecError::SerializationFailure(_))));
    assert!(bytes.is_empty());
    assert!(Uuid::new(vec![1, 2, 3]).is_none());
}

#[test]
fn error_messages_are_available() {
    let e = CodecError::DeserializationFailure("bad document");
    assert_eq!(e.message(), "bad document");
    let s = CodecError::SerializationFailure("too large");
    assert_eq!(s.message(), "too large");
}

#[test]
fn empty_query_vector_and_empty_batch_roundtrip() {
    let mut cmd = sample_command();
    cmd.query_vector = vec![];
    let mut enc: BsonEncoder<VectorSearchCommand> = BsonEncoder::new();
    let mut bytes: Vec<u8> = Vec::new();
    enc.encode(&cmd, &mut bytes).unwrap();
    let mut dec: BsonDecoder<VectorSearchCommand> = BsonDecoder::new();
    assert_eq!(dec.decode(bytes.as_slice()).unwrap().unwrap(), cmd);

    let batch = MongotCursorBatch { ok: 0, errmsg: None, cursor: None, explain: None, vars: None };
    let mut enc_b: BsonEncoder<MongotCursorBatch> = BsonEncoder::new();
    let mut bb: Vec<u8> = Vec::new();
    enc_b.encode(&batch, &mut bb).unwrap();
    let mut dec_b: BsonDecoder<MongotCursorBatch> = BsonDecoder::new();
    assert_eq!(dec_b.decode(bb.as_slice()).unwrap().unwrap(), batch);
}

#[test]
fn long_result_page_keeps_order() {
    let mut results = Vec::new();
    for i in 0..15i64 {
        results.push(VectorSearchResult { id: BsonScalar::Int64(i * 11) });
    }
    let batch = MongotCursorBatch {
        ok: 1,
        errmsg: None,
        cursor: Some(MongotCursorResult {
            id: 9,
            next_batch: results.clone(),
            ns: String::from("a.b"),
            result_type: None,
        }),
        explain: None,
        vars: None,
    };
    let mut enc: BsonEncoder<MongotCursorBatch> = BsonEncoder::new();
    let mut bytes: Vec<u8> = Vec::new();
    enc.encode(&batch, &mut bytes).unwrap();
    let mut dec: BsonDecoder<MongotCursorBatch> = BsonDecoder::new();
    let back = dec.decode(bytes.as_slice()).unwrap().unwrap();
    assert_eq!(back.cursor.unwrap().next_batch, results);
}
