//! Metastore-facing data types: the entity and error taxonomy, source kinds,
//! request constructors, and the compressed-JSON byte helpers.

use vstd::prelude::*;

verus! {

/// A split catalog identifier: the index id plus the incarnation that
/// distinguishes re-created indexes of the same name.
#[derive(Debug, Clone, PartialEq, Eq)]
pub struct IndexUid {
    pub index_id: String,
    pub incarnation_id: u128,
}

/// The object kinds the metastore stores and manages.
#[derive(Debug, Clone, PartialEq, Eq)]
pub enum EntityKind {
    CheckpointDelta { index_id: String, source_id: String },
    Index { index_id: String },
    Indexes { index_ids: Vec<String> },
    Source { index_id: String, source_id: String },
    Shard { queue_id: String },
    Split { split_id: String },
    Splits { split_ids: Vec<String> },
    IndexTemplate { template_id: String },
}

/// The ids joined with a comma and a space, from index `i` on.
pub open spec fn spec_joined_from(ids: Seq<String>, i: int) -> Seq<char>
    decreases ids.len() - i,
{
    if i < 0 || i >= ids.len() {
        Seq::empty()
    } else if i == ids.len() - 1 {
        ids[i]@
    } else {
        ids[i]@ + ", "@ + spec_joined_from(ids, i + 1)
    }
}

fn join_comma(ids: &Vec<String>) -> (r: String)
    ensures
        r@ == spec_joined_from(ids@, 0),
{
    let mut out = String::new();
    let mut i: usize = 0;
    if ids.len() == 0 {
        return out;
    }
    while i < ids.len()
        invariant
            i <= ids@.len(),
            0 < ids@.len(),
            out@ + spec_joined_from(ids@, i as int) == spec_joined_from(ids@, 0),
            i < ids@.len() || out@ == spec_joined_from(ids@, 0),
        decreases ids@.len() - i,
    {
        out.append(ids[i].as_str());
        if i + 1 < ids.len() {
            out.append(", ");
        }
        proof {
            if i + 1 < ids@.len() {
                assert(spec_joined_from(ids@, i as int) == ids@[i as int]@ + ", "@
                    + spec_joined_from(ids@, i + 1));
            } else {
                assert(spec_joined_from(ids@, i as int) == ids@[i as int]@);
                assert(spec_joined_from(ids@, i + 1) == Seq::<char>::empty());
            }
            assert(out@ + spec_joined_from(ids@, i + 1) =~= spec_joined_from(ids@, 0));
        }
        i += 1;
    }
    proof {
        assert(spec_joined_from(ids@, ids@.len() as int) == Seq::<char>::empty());
    }
    out
}

impl EntityKind {
    /// How the entity names itself, e.g. in error messages.
    pub open spec fn spec_description(&self) -> Seq<char> {
        match self {
            EntityKind::CheckpointDelta { index_id, source_id } => "checkpoint delta `"@
                + index_id@ + "/"@ + source_id@ + "`"@,
            EntityKind::Index { index_id } => "index `"@ + index_id@ + "`"@,
            EntityKind::Indexes { index_ids } => "indexes `"@ + spec_joined_from(index_ids@, 0)
                + "`"@,
            EntityKind::Source { index_id, source_id } => "source `"@ + index_id@ + "/"@
                + source_id@ + "`"@,
            EntityKind::Shard { queue_id } => "shard `"@ + queue_id@ + "`"@,
            EntityKind::Split { split_id } => "split `"@ + split_id@ + "`"@,
            EntityKind::Splits { split_ids } => "splits `"@ + spec_joined_from(split_ids@, 0)
                + "`"@,
            EntityKind::IndexTemplate { template_id } => "index template `"@ + template_id@ + "`"@,
        }
    }

    /// Renders the entity's name.
    pub fn description(&self) -> (r: String)
        ensures
            r@ == self.spec_description(),
    {
        let mut out = String::new();
        match self {
            EntityKind::CheckpointDelta { index_id, source_id } => {
                out.append("checkpoint delta `");
                out.append(index_id.as_str());
                out.append("/");
                out.append(source_id.as_str());
                out.append("`");
            },
            EntityKind::Index { index_id } => {
                out.append("index `");
                out.append(index_id.as_str());
                out.append("`");
            },
            EntityKind::Indexes { index_ids } => {
                out.append("indexes `");
                let joined = join_comma(index_ids);
                out.append(joined.as_str());
                out.append("`");
            },
            EntityKind::Source { index_id, source_id } => {
                out.append("source `");
                out.append(index_id.as_str());
                out.append("/");
                out.append(source_id.as_str());
                out.append("`");
            },
            EntityKind::Shard { queue_id } => {
                out.append("shard `");
                out.append(queue_id.as_str());
                out.append("`");
            },
            EntityKind::Split { split_id } => {
                out.append("split `");
                out.append(split_id.as_str());
                out.append("`");
            },
            EntityKind::Splits { split_ids } => {
                out.append("splits `");
                let joined = join_comma(split_ids);
                out.append(joined.as_str());
                out.append("`");
            },
            EntityKind::IndexTemplate { template_id } => {
                out.append("index template `");
                out.append(template_id.as_str());
                out.append("`");
            },
        }
        out
    }
}

/// The errors the metastore surfaces.
#[derive(Debug, Clone, PartialEq, Eq)]
pub enum MetastoreError {
    AlreadyExists(EntityKind),
    Connection { message: String },
    Db { message: String },
    FailedPrecondition { entity: EntityKind, message: String },
    Forbidden { message: String },
    Internal { message: String, cause: String },
    InvalidArgument { message: String },
    Io { message: String },
    JsonDeserializeError { struct_name: String, message: String },
    JsonSerializeError { struct_name: String, message: String },
    NotFound(EntityKind),
    Timeout(String),
    TooManyRequests,
    Unavailable(String),
}

/// The wire-level category of a service error.
#[derive(Debug, Clone, Copy, PartialEq, Eq, Structural)]
pub enum ServiceErrorCode {
    AlreadyExists,
    BadRequest,
    Forbidden,
    Internal,
    NotFound,
    Timeout,
    TooManyRequests,
    Unavailable,
}

impl MetastoreError {
    pub open spec fn spec_error_code(&self) -> ServiceErrorCode {
        match self {
            MetastoreError::AlreadyExists(_) => ServiceErrorCode::AlreadyExists,
            MetastoreError::Connection { .. } => ServiceErrorCode::Internal,
            MetastoreError::Db { .. } => ServiceErrorCode::Internal,
            MetastoreError::FailedPrecondition { .. } => ServiceErrorCode::BadRequest,
            MetastoreError::Forbidden { .. } => ServiceErrorCode::Forbidden,
            MetastoreError::Internal { .. } => ServiceErrorCode::Internal,
            MetastoreError::InvalidArgument { .. } => ServiceErrorCode::BadRequest,
            MetastoreError::Io { .. } => ServiceErrorCode::Internal,
            MetastoreError::JsonDeserializeError { .. } => ServiceErrorCode::Internal,
            MetastoreError::JsonSerializeError { .. } => ServiceErrorCode::Internal,
            MetastoreError::NotFound(_) => ServiceErrorCode::NotFound,
            MetastoreError::Timeout(_) => ServiceErrorCode::Timeout,
            MetastoreError::TooManyRequests => ServiceErrorCode::TooManyRequests,
            MetastoreError::Unavailable(_) => ServiceErrorCode::Unavailable,
        }
    }

    /// The category this error reports over the wire.
    pub fn error_code(&self) -> (r: ServiceErrorCode)
        ensures
            r == self.spec_error_code(),
    {
        match self {
            MetastoreError::AlreadyExists(_) => ServiceErrorCode::AlreadyExists,
            MetastoreError::Connection { .. } => ServiceErrorCode::Internal,
            MetastoreError::Db { .. } => ServiceErrorCode::Internal,
            MetastoreError::FailedPrecondition { .. } => ServiceErrorCode::BadRequest,
            MetastoreError::Forbidden { .. } => ServiceErrorCode::Forbidden,
            MetastoreError::Internal { .. } => ServiceErrorCode::Internal,
            MetastoreError::InvalidArgument { .. } => ServiceErrorCode::BadRequest,
            MetastoreError::Io { .. } => ServiceErrorCode::Internal,
            MetastoreError::JsonDeserializeError { .. } => ServiceErrorCode::Internal,
            MetastoreError::JsonSerializeError { .. } => ServiceErrorCode::Internal,
            MetastoreError::NotFound(_) => ServiceErrorCode::NotFound,
            MetastoreError::Timeout(_) => ServiceErrorCode::Timeout,
            MetastoreError::TooManyRequests => ServiceErrorCode::TooManyRequests,
            MetastoreError::Unavailable(_) => ServiceErrorCode::Unavailable,
        }
    }

    pub fn new_internal(message: String) -> (r: MetastoreError)
        ensures
            r matches MetastoreError::Internal { message: m, cause } && m == message && cause@
                =~= Seq::<char>::empty(),
    {
        MetastoreError::Internal { message, cause: String::new() }
    }

    pub fn new_timeout(message: String) -> (r: MetastoreError)
        ensures
            r == MetastoreError::Timeout(message),
    {
        MetastoreError::Timeout(message)
    }

    pub fn new_too_many_requests() -> (r: MetastoreError)
        ensures
            r == MetastoreError::TooManyRequests,
    {
        MetastoreError::TooManyRequests
    }

    pub fn new_unavailable(message: String) -> (r: MetastoreError)
        ensures
            r == MetastoreError::Unavailable(message),
    {
        MetastoreError::Unavailable(message)
    }

    pub open spec fn spec_is_retryable(&self) -> bool {
        match self {
            MetastoreError::Connection { .. } => true,
            MetastoreError::Db { .. } => true,
            MetastoreError::Io { .. } => true,
            MetastoreError::Internal { .. } => true,
            _ => false,
        }
    }

    /// May a caller retry the operation that produced this error?
    pub fn is_retryable(&self) -> (r: bool)
        ensures
            r == self.spec_is_retryable(),
    {
        matches!(
            self,
            MetastoreError::Connection { .. } | MetastoreError::Db { .. } | MetastoreError::Io {
                ..
            } | MetastoreError::Internal { .. }
        )
    }

    /// The error reported when load shedding rejects a request.
    pub fn make_load_shed_error() -> (r: MetastoreError)
        ensures
            r == MetastoreError::TooManyRequests,
    {
        MetastoreError::TooManyRequests
    }
}

/// The kinds of ingestion source the metastore knows.
#[derive(Debug, Clone, Copy, PartialEq, Eq, Structural)]
pub enum SourceType {
    Cli,
    File,
    IngestV1,
    IngestV2,
    Kafka,
    Kinesis,
    Nats,
    PubSub,
    Pulsar,
    Unspecified,
    Vec,
    Void,
}

impl SourceType {
    /// The stable identifier of the source type.
    pub fn as_str(&self) -> (r: &'static str)
        ensures
            r@ == match self {
                SourceType::Cli => "ingest-cli"@,
                SourceType::File => "file"@,
                SourceType::IngestV1 => "ingest-api"@,
                SourceType::IngestV2 => "ingest"@,
                SourceType::Kafka => "kafka"@,
                SourceType::Kinesis => "kinesis"@,
                SourceType::Nats => "nats"@,
                SourceType::PubSub => "pubsub"@,
                SourceType::Pulsar => "pulsar"@,
                SourceType::Unspecified => "unspecified"@,
                SourceType::Vec => "vec"@,
                SourceType::Void => "void"@,
            },
    {
        match self {
            SourceType::Cli => "ingest-cli",
            SourceType::File => "file",
            SourceType::IngestV1 => "ingest-api",
            SourceType::IngestV2 => "ingest",
            SourceType::Kafka => "kafka",
            SourceType::Kinesis => "kinesis",
            SourceType::Nats => "nats",
            SourceType::PubSub => "pubsub",
            SourceType::Pulsar => "pulsar",
            SourceType::Unspecified => "unspecified",
            SourceType::Vec => "vec",
            SourceType::Void => "void",
        }
    }

    /// The human-readable name of the source type.
    pub fn display_name(&self) -> (r: &'static str)
        ensures
            r@ == match self {
                SourceType::Cli => "CLI ingest"@,
                SourceType::File => "file"@,
                SourceType::IngestV1 => "ingest API v1"@,
                SourceType::IngestV2 => "ingest API v2"@,
                SourceType::Kafka => "Apache Kafka"@,
                SourceType::Kinesis => "Amazon Kinesis"@,
                SourceType::Nats => "NATS"@,
                SourceType::PubSub => "Google Cloud Pub/Sub"@,
                SourceType::Pulsar => "Apache Pulsar"@,
                SourceType::Unspecified => "unspecified"@,
                SourceType::Vec => "vec"@,
                SourceType::Void => "void"@,
            },
    {
        match self {
            SourceType::Cli => "CLI ingest",
            SourceType::File => "file",
            SourceType::IngestV1 => "ingest API v1",
            SourceType::IngestV2 => "ingest API v2",
            SourceType::Kafka => "Apache Kafka",
            SourceType::Kinesis => "Amazon Kinesis",
            SourceType::Nats => "NATS",
            SourceType::PubSub => "Google Cloud Pub/Sub",
            SourceType::Pulsar => "Apache Pulsar",
            SourceType::Unspecified => "unspecified",
            SourceType::Vec => "vec",
            SourceType::Void => "void",
        }
    }
}

/// Asks the metastore for one index's metadata, by id or by uid.
#[derive(Debug, Clone, PartialEq, Eq)]
pub struct IndexMetadataRequest {
    pub index_uid: Option<IndexUid>,
    pub index_id: Option<String>,
}

impl IndexMetadataRequest {
    pub fn for_index_id(index_id: String) -> (r: IndexMetadataRequest)
        ensures
            r.index_uid == None::<IndexUid>,
            r.index_id == Some(index_id),
    {
        IndexMetadataRequest { index_uid: None, index_id: Some(index_id) }
    }

    pub fn for_index_uid(index_uid: IndexUid) -> (r: IndexMetadataRequest)
        ensures
            r.index_uid == Some(index_uid),
            r.index_id == None::<String>,
    {
        IndexMetadataRequest { index_uid: Some(index_uid), index_id: None }
    }
}

/// Marks the given splits of an index for deletion.
#[derive(Debug, Clone, PartialEq, Eq)]
pub struct MarkSplitsForDeletionRequest {
    pub index_uid: Option<IndexUid>,
    pub split_ids: Vec<String>,
}

impl MarkSplitsForDeletionRequest {
    pub fn new(index_uid: IndexUid, split_ids: Vec<String>) -> (r: MarkSplitsForDeletionRequest)
        ensures
            r.index_uid == Some(index_uid),
            r.split_ids == split_ids,
    {
        MarkSplitsForDeletionRequest { index_uid: Some(index_uid), split_ids }
    }
}

/// The last delete operation stamp of an index.
#[derive(Debug, Clone, Copy, PartialEq, Eq, Structural)]
pub struct LastDeleteOpstampResponse {
    pub last_delete_opstamp: u64,
}

impl LastDeleteOpstampResponse {
    pub fn new(last_delete_opstamp: u64) -> (r: LastDeleteOpstampResponse)
        ensures
            r.last_delete_opstamp == last_delete_opstamp,
    {
        LastDeleteOpstampResponse { last_delete_opstamp }
    }
}

/// Lists an index's delete tasks from a given stamp on.
#[derive(Debug, Clone, PartialEq, Eq)]
pub struct ListDeleteTasksRequest {
    pub index_uid: Option<IndexUid>,
    pub opstamp_start: u64,
}

impl ListDeleteTasksRequest {
    pub fn new(index_uid: IndexUid, opstamp_start: u64) -> (r: ListDeleteTasksRequest)
        ensures
            r.index_uid == Some(index_uid),
            r.opstamp_start == opstamp_start,
    {
        ListDeleteTasksRequest { index_uid: Some(index_uid), opstamp_start }
    }
}

/// Lists the metadata of the indexes matching the given id patterns.
#[derive(Debug, Clone, PartialEq, Eq)]
pub struct ListIndexesMetadataRequest {
    pub index_id_patterns: Vec<String>,
}

impl ListIndexesMetadataRequest {
    /// The request that matches every index.
    pub fn all() -> (r: ListIndexesMetadataRequest)
        ensures
            r.index_id_patterns@.len() == 1,
            r.index_id_patterns@[0]@ == "*"@,
    {
        let mut patterns: Vec<String> = Vec::new();
        patterns.push(String::from_str("*"));
        ListIndexesMetadataRequest { index_id_patterns: patterns }
    }
}

/// What `zstd` decompression yields on these bytes: the decompressed bytes,
/// or nothing when the input is not a valid frame. Decompression depends on
/// the input bytes alone.
pub uninterp spec fn zstd_decode_of(bytes: Seq<u8>) -> Option<Seq<u8>>;

/// What `zstd` compression at the given level yields on these bytes, or
/// nothing when compression fails. The output depends on the input bytes and
/// the level alone.
pub uninterp spec fn zstd_encode_of(bytes: Seq<u8>, level: int) -> Option<Seq<u8>>;

/// Relies on `zstd::decode_all`: decompresses a complete frame from the
/// input bytes; the result is a function of the input alone.
#[verifier::external_body]
fn zstd_decode(bytes: &[u8]) -> (r: Result<Vec<u8>, String>)
    ensures
        match r {
            Ok(v) => zstd_decode_of(bytes@) == Some(v@),
            Err(_) => zstd_decode_of(bytes@) == None::<Seq<u8>>,
        },
{
    zstd::decode_all(bytes).map_err(|error| error.to_string())
}

/// Relies on `zstd::encode_all`: compresses the input bytes at the given
/// level; the result is a function of the input and the level alone.
#[verifier::external_body]
fn zstd_encode(bytes: &[u8], compression_level: i32) -> (r: Result<Vec<u8>, String>)
    ensures
        match r {
            Ok(v) => zstd_encode_of(bytes@, compression_level as int) == Some(v@),
            Err(_) => zstd_encode_of(bytes@, compression_level as int) == None::<Seq<u8>>,
        },
{
    zstd::encode_all(bytes, compression_level).map_err(|error| error.to_string())
}

/// Decompresses a zstd-compressed JSON document to its serialized bytes; a
/// corrupt frame becomes a deserialization error naming the target type.
pub fn decode_json_zstd(value_bytes: &[u8], struct_name: String) -> (r: Result<
    Vec<u8>,
    MetastoreError,
>)
    ensures
        match r {
            Ok(v) => zstd_decode_of(value_bytes@) == Some(v@),
            Err(e) => zstd_decode_of(value_bytes@) == None::<Seq<u8>> && (e matches
                MetastoreError::JsonDeserializeError { struct_name: n, message: _ } && n
                == struct_name),
        },
{
    match zstd_decode(value_bytes) {
        Ok(v) => Ok(v),
        Err(message) => Err(MetastoreError::JsonDeserializeError { struct_name, message }),
    }
}

/// Compresses serialized JSON bytes with zstd at the given level; a
/// compression failure becomes a serialization error naming the source type.
pub fn encode_json_zstd(json_bytes: &[u8], compression_level: i32, struct_name: String) -> (r:
    Result<Vec<u8>, MetastoreError>)
    ensures
        match r {
            Ok(v) => zstd_encode_of(json_bytes@, compression_level as int) == Some(v@),
            Err(e) => zstd_encode_of(json_bytes@, compression_level as int) == None::<Seq<u8>> && (
            e matches MetastoreError::JsonSerializeError { struct_name: n, message: _ } && n
                == struct_name),
        },
{
    match zstd_encode(json_bytes, compression_level) {
        Ok(v) => Ok(v),
        Err(message) => Err(MetastoreError::JsonSerializeError { struct_name, message }),
    }
}

} // verus!
