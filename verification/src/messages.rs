use vstd::prelude::*;

verus! {

/// Identifier of a blob: a 32-byte hash.
pub type BlobId = [u8; 32];

/// Index of a DA subnetwork (one column of the extended data).
pub type SubnetworkId = u16;

/// A share of a blob as it travels on the wire: the blob id and the encoded
/// share.
#[derive(Debug)]
pub struct Share {
    pub blob_id: BlobId,
    pub data: Vec<u8>,
}

impl Share {
    pub fn new(blob_id: BlobId, data: Vec<u8>) -> (s: Share)
        ensures
            s.blob_id == blob_id,
            s.data@ == data@,
    {
        Share { blob_id, data }
    }
}

/// A light share (a share without its commitments): the blob id, the index
/// of the share (its subnetwork) and the encoded light share.
#[derive(Debug)]
pub struct LightShare {
    pub blob_id: BlobId,
    pub share_idx: SubnetworkId,
    pub data: Vec<u8>,
}

impl LightShare {
    pub fn new(blob_id: BlobId, share_idx: SubnetworkId, data: Vec<u8>) -> (s: LightShare)
        ensures
            s.blob_id == blob_id,
            s.share_idx == share_idx,
            s.data@ == data@,
    {
        LightShare { blob_id, share_idx, data }
    }
}

/// A blob column sent for dispersal: the blob id and the encoded column.
#[derive(Debug)]
pub struct Blob {
    pub blob_id: BlobId,
    pub data: Vec<u8>,
}

impl Blob {
    pub fn new(blob_id: BlobId, data: Vec<u8>) -> (b: Blob)
        ensures
            b.blob_id == blob_id,
            b.data@ == data@,
    {
        Blob { blob_id, data }
    }

    /// A copy of this blob.
    pub fn duplicate(&self) -> (b: Blob)
        ensures
            same_blob(b, *self),
    {
        let data = self.data.clone();
        assert(data@ =~= self.data@);
        Blob { blob_id: self.blob_id, data }
    }
}

/// Two blobs with the same id and the same bytes.
pub open spec fn same_blob(a: Blob, b: Blob) -> bool {
    a.blob_id == b.blob_id && a.data@ == b.data@
}

/// Why a peer closes a DA stream.
#[derive(Debug, PartialEq, Eq, Structural, Clone, Copy)]
pub enum CloseMessageReason {
    GracefulShutdown,
    SubnetChange,
    SubnetSampleFailure,
}

/// Message announcing that a stream is being closed, and why.
#[derive(Debug, PartialEq, Eq, Structural, Clone, Copy)]
pub struct CloseMessage {
    pub reason: CloseMessageReason,
}

impl CloseMessage {
    pub fn new(reason: CloseMessageReason) -> (m: CloseMessage)
        ensures
            m.reason == reason,
    {
        CloseMessage { reason }
    }
}

/// Kind of failure reported back to a dispersing executor.
#[derive(Debug, PartialEq, Eq, Structural, Clone, Copy)]
pub enum DispersalErrorType {
    ChunkSize,
    Verification,
}

/// Failure reported back to a dispersing executor.
#[derive(Debug)]
pub struct DispersalError {
    pub blob_id: BlobId,
    pub error_type: DispersalErrorType,
    pub error_description: String,
}

impl DispersalError {
    pub fn new(blob_id: BlobId, error_type: DispersalErrorType, error_description: String) -> (e:
        DispersalError)
        ensures
            e.blob_id == blob_id,
            e.error_type == error_type,
            e.error_description@ == error_description@,
    {
        DispersalError { blob_id, error_type, error_description }
    }
}

/// A blob column sent to the members of a subnetwork.
#[derive(Debug)]
pub struct DispersalRequest {
    pub blob: Blob,
    pub subnetwork_id: SubnetworkId,
}

impl DispersalRequest {
    pub fn new(blob: Blob, subnetwork_id: SubnetworkId) -> (r: DispersalRequest)
        ensures
            r.blob == blob,
            r.subnetwork_id == subnetwork_id,
    {
        DispersalRequest { blob, subnetwork_id }
    }
}

/// Answer to a dispersal request.
#[derive(Debug)]
pub enum DispersalResponse {
    BlobId(BlobId),
    Error(DispersalError),
}

/// A share forwarded to the other members of its subnetwork.
#[derive(Debug)]
pub struct ReplicationRequest {
    pub share: Share,
    pub subnetwork_id: SubnetworkId,
}

/// Two requests carry the same share for the same subnetwork.
pub open spec fn same_request(a: ReplicationRequest, b: ReplicationRequest) -> bool {
    a.share.blob_id == b.share.blob_id && a.share.data@ == b.share.data@ && a.subnetwork_id == b.subnetwork_id
}

/// The 34 bytes that identify a replicated share: the blob id followed by
/// the subnetwork id, most significant byte first.
pub open spec fn replication_id_bytes(blob_id: BlobId, subnetwork_id: SubnetworkId) -> Seq<u8> {
    blob_id@ + seq![(subnetwork_id / 256) as u8, (subnetwork_id % 256) as u8]
}

/// Identifier of a replicated share, used to recognise messages already seen.
#[derive(Debug, PartialEq, Eq, Hash, Clone, Copy)]
pub struct ReplicationResponseId {
    pub bytes: [u8; 34],
}

impl ReplicationResponseId {
    /// The id of the share of blob `blob_id` in subnetwork `subnetwork_id`.
    pub fn from_parts(blob_id: BlobId, subnetwork_id: SubnetworkId) -> (id: ReplicationResponseId)
        ensures
            id.bytes@ == replication_id_bytes(blob_id, subnetwork_id),
    {
        let mut bytes: [u8; 34] = [0u8; 34];
        let mut i: usize = 0;
        while i < 32
            invariant
                i <= 32,
                bytes@.len() == 34,
                forall|j: int| 0 <= j < i ==> bytes@[j] == blob_id@[j],
            decreases 32 - i,
        {
            bytes[i] = blob_id[i];
            i = i + 1;
        }
        let hi: u8 = (subnetwork_id >> 8u16) as u8;
        let lo: u8 = (subnetwork_id & 0xffu16) as u8;
        assert(hi as int == subnetwork_id as int / 256 && lo as int == subnetwork_id as int % 256)
            by (bit_vector)
            requires
                hi == (subnetwork_id >> 8u16) as u8,
                lo == (subnetwork_id & 0xffu16) as u8,
        ;
        bytes[32] = hi;
        bytes[33] = lo;
        assert(bytes@ =~= replication_id_bytes(blob_id, subnetwork_id));
        ReplicationResponseId { bytes }
    }
}

/// The id of the share of a blob in a subnetwork, given as a pair.
impl From<(BlobId, SubnetworkId)> for ReplicationResponseId {
    fn from(parts: (BlobId, SubnetworkId)) -> (id: Self) {
        let id = ReplicationResponseId::from_parts(parts.0, parts.1);
        proof {
            let c = choose|c: ReplicationResponseId| c.bytes@ == replication_id_bytes(parts.0, parts.1);
            assert(c.bytes =~= id.bytes);
        }
        id
    }
}

impl vstd::std_specs::convert::FromSpecImpl<(BlobId, SubnetworkId)> for ReplicationResponseId {
    open spec fn obeys_from_spec() -> bool {
        true
    }

    open spec fn from_spec(parts: (BlobId, SubnetworkId)) -> Self {
        choose|id: ReplicationResponseId| id.bytes@ == replication_id_bytes(parts.0, parts.1)
    }
}

impl ReplicationRequest {
    pub fn new(share: Share, subnetwork_id: SubnetworkId) -> (r: ReplicationRequest)
        ensures
            r.share == share,
            r.subnetwork_id == subnetwork_id,
    {
        ReplicationRequest { share, subnetwork_id }
    }

    /// A copy of this request.
    pub fn duplicate(&self) -> (r: ReplicationRequest)
        ensures
            same_request(r, *self),
    {
        let data = self.share.data.clone();
        assert(data@ =~= self.share.data@);
        ReplicationRequest { share: Share { blob_id: self.share.blob_id, data }, subnetwork_id: self.subnetwork_id }
    }

    /// The id under which this request is recognised when seen again.
    pub fn id(&self) -> (id: ReplicationResponseId)
        ensures
            id.bytes@ == replication_id_bytes(self.share.blob_id, self.subnetwork_id),
    {
        ReplicationResponseId::from_parts(self.share.blob_id, self.subnetwork_id)
    }
}

/// Two requests get the same id exactly when they are for the same blob and
/// the same subnetwork.
pub proof fn lemma_replication_id_injective(
    blob_a: BlobId,
    net_a: SubnetworkId,
    blob_b: BlobId,
    net_b: SubnetworkId,
)
    ensures
        (replication_id_bytes(blob_a, net_a) == replication_id_bytes(blob_b, net_b)) <==> (blob_a@
            == blob_b@ && net_a == net_b),
{
    let a = replication_id_bytes(blob_a, net_a);
    let b = replication_id_bytes(blob_b, net_b);
    if a == b {
        assert(blob_a@ =~= a.subrange(0, 32));
        assert(blob_b@ =~= b.subrange(0, 32));
        assert(a[32] == b[32] && a[33] == b[33]);
        assert(net_a == (net_a / 256) * 256 + net_a % 256);
        assert(net_b == (net_b / 256) * 256 + net_b % 256);
    }
}

/// Kind of failure answered to a sampling request.
#[derive(Debug, PartialEq, Eq, Structural, Clone, Copy)]
pub enum SampleErrorType {
    NotFound,
}

/// Failure answered to a sampling request, for a blob and a column.
#[derive(Debug)]
pub struct SampleError {
    pub blob_id: BlobId,
    pub column_idx: SubnetworkId,
    pub error_type: SampleErrorType,
    pub error_description: String,
}

impl SampleError {
    pub fn new(
        blob_id: BlobId,
        column_idx: SubnetworkId,
        error_type: SampleErrorType,
        error_description: String,
    ) -> (e: SampleError)
        ensures
            e.blob_id == blob_id,
            e.column_idx == column_idx,
            e.error_type == error_type,
            e.error_description@ == error_description@,
    {
        SampleError { blob_id, column_idx, error_type, error_description }
    }
}

/// Request for the share of a blob in one column.
#[derive(Debug, PartialEq, Eq, Clone, Copy)]
pub struct SampleRequest {
    pub blob_id: BlobId,
    pub column_idx: SubnetworkId,
}

impl SampleRequest {
    pub fn new(blob_id: BlobId, column_idx: SubnetworkId) -> (r: SampleRequest)
        ensures
            r.blob_id == blob_id,
            r.column_idx == column_idx,
    {
        SampleRequest { blob_id, column_idx }
    }
}

/// Answer to a sampling request: the light share, or an error.
#[derive(Debug)]
pub enum SampleResponse {
    Share(LightShare),
    Error(SampleError),
}

/// HTTP request for the commitments of a blob.
#[derive(Debug, Clone, Copy)]
pub struct DABlobCommitmentsRequest {
    pub blob_id: BlobId,
}

/// HTTP request for a sample of a blob: its share at `share_idx`.
#[derive(Debug, Clone, Copy)]
pub struct DaSamplingRequest {
    pub blob_id: BlobId,
    pub share_idx: SubnetworkId,
}

/// HTTP request for the blobs of an application whose indices lie in
/// `range`.
#[derive(Debug)]
pub struct GetRangeReq {
    pub app_id: [u8; 32],
    pub range: std::ops::Range<u64>,
}

} // verus!
