//! The document value model: the two message shapes exchanged over the
//! transport, the nested cursor result, and the generic scalar values that
//! ride in the open-ended fields.

use vstd::prelude::*;

verus! {

/// The two failure kinds a codec call can surface: the outbound value could
/// not be written as document bytes, or the inbound bytes did not parse as a
/// complete, well-formed document. Each carries a human-readable cause.
#[derive(Debug, Clone, Copy, PartialEq, Eq)]
pub enum CodecError {
    SerializationFailure(&'static str),
    DeserializationFailure(&'static str),
}

impl CodecError {
    /// A human-readable description of the failure.
    pub fn message(&self) -> (r: &'static str)
        ensures
            (match self {
                CodecError::SerializationFailure(m) => r == m,
                CodecError::DeserializationFailure(m) => r == m,
            }),
    {
        match self {
            CodecError::SerializationFailure(m) => m,
            CodecError::DeserializationFailure(m) => m,
        }
    }
}

/// A 128-bit collection identifier, held as its 16 canonical bytes.
#[derive(Debug, Clone, PartialEq, Eq)]
pub struct Uuid {
    pub bytes: Vec<u8>,
}

impl Uuid {
    /// A UUID is well formed when it holds exactly 16 bytes.
    pub open spec fn wf(&self) -> bool {
        self.bytes@.len() == 16
    }

    pub fn new(bytes: Vec<u8>) -> (r: Option<Uuid>)
        ensures
            bytes@.len() == 16 ==> (r matches Some(u) && u.bytes@ == bytes@),
            bytes@.len() != 16 ==> r is None,
    {
        if bytes.len() == 16 {
            Some(Uuid { bytes })
        } else {
            None
        }
    }
}

impl View for Uuid {
    type V = Seq<u8>;

    open spec fn view(&self) -> Seq<u8> {
        self.bytes@
    }
}

/// A generic document scalar: the heterogeneous values the peer may place in
/// `_id`, `explain` and `vars`.
#[derive(Debug, Clone, PartialEq)]
pub enum BsonScalar {
    Int32(i32),
    Int64(i64),
    Text(String),
    Bool(bool),
    Null,
}

/// The spec-level image of a `BsonScalar`.
#[verifier::ext_equal]
pub ghost enum ScalarView {
    Int32(i32),
    Int64(i64),
    Text(Seq<char>),
    Bool(bool),
    Null,
}

impl View for BsonScalar {
    type V = ScalarView;

    open spec fn view(&self) -> ScalarView {
        match self {
            BsonScalar::Int32(v) => ScalarView::Int32(*v),
            BsonScalar::Int64(v) => ScalarView::Int64(*v),
            BsonScalar::Text(s) => ScalarView::Text(s@),
            BsonScalar::Bool(b) => ScalarView::Bool(*b),
            BsonScalar::Null => ScalarView::Null,
        }
    }
}

/// Distinguishes a page of results from a page of metadata.
#[derive(Debug, Clone, Copy, PartialEq, Eq)]
pub enum ResultType {
    Results,
    Meta,
}

/// One search hit: a single `_id` field of scalar type.
#[derive(Debug, Clone, PartialEq)]
pub struct VectorSearchResult {
    pub id: BsonScalar,
}

#[verifier::ext_equal]
pub ghost struct ResultView {
    pub id: ScalarView,
}

impl View for VectorSearchResult {
    type V = ResultView;

    open spec fn view(&self) -> ResultView {
        ResultView { id: self.id@ }
    }
}

/// The nested cursor payload of a response document.
#[derive(Debug, Clone, PartialEq)]
pub struct MongotCursorResult {
    pub id: u32,
    pub next_batch: Vec<VectorSearchResult>,
    pub ns: String,
    pub result_type: Option<ResultType>,
}

/// The spec-level image of a result list.
pub open spec fn results_view(v: Seq<VectorSearchResult>) -> Seq<ResultView> {
    Seq::new(v.len(), |i: int| v[i]@)
}

#[verifier::ext_equal]
pub ghost struct CursorView {
    pub id: u32,
    pub next_batch: Seq<ResultView>,
    pub ns: Seq<char>,
    pub result_type: Option<ResultType>,
}

impl View for MongotCursorResult {
    type V = CursorView;

    open spec fn view(&self) -> CursorView {
        CursorView {
            id: self.id,
            next_batch: results_view(self.next_batch@),
            ns: self.ns@,
            result_type: self.result_type,
        }
    }
}

/// The inbound response document.
#[derive(Debug, Clone, PartialEq)]
pub struct MongotCursorBatch {
    pub ok: u8,
    pub errmsg: Option<String>,
    pub cursor: Option<MongotCursorResult>,
    pub explain: Option<BsonScalar>,
    pub vars: Option<BsonScalar>,
}

#[verifier::ext_equal]
pub ghost struct BatchView {
    pub ok: u8,
    pub errmsg: Option<Seq<char>>,
    pub cursor: Option<CursorView>,
    pub explain: Option<ScalarView>,
    pub vars: Option<ScalarView>,
}

impl View for MongotCursorBatch {
    type V = BatchView;

    open spec fn view(&self) -> BatchView {
        BatchView {
            ok: self.ok,
            errmsg: match &self.errmsg {
                Some(s) => Some(s@),
                None => None,
            },
            cursor: match &self.cursor {
                Some(c) => Some(c@),
                None => None,
            },
            explain: match &self.explain {
                Some(v) => Some(v@),
                None => None,
            },
            vars: match &self.vars {
                Some(v) => Some(v@),
                None => None,
            },
        }
    }
}

/// The outbound request document.
#[derive(Debug, Clone, PartialEq)]
pub struct VectorSearchCommand {
    pub vector_search: String,
    pub db: String,
    pub collection_uuid: Uuid,
    pub path: String,
    pub query_vector: Vec<i64>,
    pub index: String,
    pub limit: i64,
    pub num_candidates: i64,
}

#[verifier::ext_equal]
pub ghost struct CommandView {
    pub vector_search: Seq<char>,
    pub db: Seq<char>,
    pub collection_uuid: Seq<u8>,
    pub path: Seq<char>,
    pub query_vector: Seq<i64>,
    pub index: Seq<char>,
    pub limit: i64,
    pub num_candidates: i64,
}

impl View for VectorSearchCommand {
    type V = CommandView;

    open spec fn view(&self) -> CommandView {
        CommandView {
            vector_search: self.vector_search@,
            db: self.db@,
            collection_uuid: self.collection_uuid@,
            path: self.path@,
            query_vector: self.query_vector@,
            index: self.index@,
            limit: self.limit,
            num_candidates: self.num_candidates,
        }
    }
}

/// A command is well formed when its collection identifier holds 16 bytes.
pub open spec fn command_wf(c: CommandView) -> bool {
    c.collection_uuid.len() == 16
}

} // verus!
