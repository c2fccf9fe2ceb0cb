use vstd::prelude::*;
use crate::messages::{BlobId, SubnetworkId, SampleRequest, SampleError};
use crate::peer::PeerKey;

verus! {

/// The kinds of stream failure that the protocols tell apart.
#[derive(Debug, PartialEq, Eq, Structural, Clone, Copy)]
pub enum IoErrorKind {
    /// The connection was reset, usually because it was never open.
    ConnectionReset,
    /// The remote closed the stream.
    UnexpectedEof,
    /// The bytes read were not a valid message.
    InvalidData,
    /// Any other failure.
    Other,
}

/// Why a stream could not be opened.
#[derive(Debug)]
pub enum OpenStreamFailure {
    /// The peer does not speak the protocol, named here.
    UnsupportedProtocol(String),
    /// The stream failed with this kind of error and this text.
    Io { kind: IoErrorKind, text: String },
    /// Any other failure, with its text.
    Other(String),
}

/// `copy` is what cloning the failure `orig` gives: the protocol name or the
/// kind and text are kept, and any other failure becomes a stream failure
/// of kind `Other` with the same text.
pub open spec fn copied_open_stream_failure(orig: OpenStreamFailure, copy: OpenStreamFailure) -> bool {
    match orig {
        OpenStreamFailure::UnsupportedProtocol(p) => copy matches OpenStreamFailure::UnsupportedProtocol(q) && q@
            == p@,
        OpenStreamFailure::Io { kind, text } => copy matches OpenStreamFailure::Io { kind: k, text: t } && k
            == kind && t@ == text@,
        OpenStreamFailure::Other(text) => copy matches OpenStreamFailure::Io { kind: k, text: t } && k
            == IoErrorKind::Other && t@ == text@,
    }
}

impl OpenStreamFailure {
    /// A copy, as [`copied_open_stream_failure`] says.
    pub fn copy(&self) -> (r: OpenStreamFailure)
        ensures
            copied_open_stream_failure(*self, r),
    {
        match self {
            OpenStreamFailure::UnsupportedProtocol(p) => OpenStreamFailure::UnsupportedProtocol(p.clone()),
            OpenStreamFailure::Io { kind, text } => OpenStreamFailure::Io { kind: *kind, text: text.clone() },
            OpenStreamFailure::Other(text) => OpenStreamFailure::Io { kind: IoErrorKind::Other, text: text.clone() },
        }
    }
}

/// Error answered by a validator to a dispersal request, as carried on the
/// wire: the raw blob id bytes and a description.
#[derive(Debug)]
pub struct DispersalErr {
    pub blob_id: Vec<u8>,
    pub err_description: String,
}

/// What can go wrong while an executor disperses a blob.
#[allow(inconsistent_fields)]
#[derive(Debug)]
pub enum DispersalError {
    /// The stream failed while writing the blob or reading the answer,
    /// with this kind of error and this text.
    Io { kind: IoErrorKind, text: String, blob_id: BlobId, subnetwork_id: SubnetworkId },
    /// The blob could not be serialized; `error` is the encoder's text.
    Serialization { error: String, blob_id: BlobId, subnetwork_id: SubnetworkId },
    /// The validator answered with an error.
    Protocol { subnetwork_id: SubnetworkId, error: DispersalErr },
    /// No stream could be opened to the peer.
    OpenStreamError { peer_id: PeerKey, error: OpenStreamFailure },
}

impl DispersalError {
    /// The blob concerned, when the error names one. The blob id of a
    /// `Protocol` error must have 32 bytes.
    pub fn blob_id(&self) -> (r: Option<BlobId>)
        requires
            self matches DispersalError::Protocol { error, .. } ==> error.blob_id@.len() == 32,
        ensures
            match self {
                DispersalError::Io { blob_id, .. } => r == Some(*blob_id),
                DispersalError::Serialization { blob_id, .. } => r == Some(*blob_id),
                DispersalError::Protocol { error, .. } => r matches Some(b) && b@ == error.blob_id@,
                DispersalError::OpenStreamError { .. } => r is None,
            },
    {
        match self {
            DispersalError::Io { blob_id, .. } => Some(*blob_id),
            DispersalError::Serialization { blob_id, .. } => Some(*blob_id),
            DispersalError::Protocol { error, .. } => {
                let mut b: BlobId = [0u8; 32];
                let mut i: usize = 0;
                while i < 32
                    invariant
                        i <= 32,
                        error.blob_id@.len() == 32,
                        b@.len() == 32,
                        forall|j: int| 0 <= j < i ==> b@[j] == error.blob_id@[j],
                    decreases 32 - i,
                {
                    b[i] = error.blob_id[i];
                    i = i + 1;
                }
                assert(b@ =~= error.blob_id@);
                Some(b)
            },
            DispersalError::OpenStreamError { .. } => None,
        }
    }

    /// The subnetwork concerned, when the error names one.
    pub fn subnetwork_id(&self) -> (r: Option<SubnetworkId>)
        ensures
            match self {
                DispersalError::Io { subnetwork_id, .. } => r == Some(*subnetwork_id),
                DispersalError::Serialization { subnetwork_id, .. } => r == Some(*subnetwork_id),
                DispersalError::Protocol { subnetwork_id, .. } => r == Some(*subnetwork_id),
                DispersalError::OpenStreamError { .. } => r is None,
            },
    {
        match self {
            DispersalError::Io { subnetwork_id, .. } => Some(*subnetwork_id),
            DispersalError::Serialization { subnetwork_id, .. } => Some(*subnetwork_id),
            DispersalError::Protocol { subnetwork_id, .. } => Some(*subnetwork_id),
            DispersalError::OpenStreamError { .. } => None,
        }
    }

    /// The peer concerned, when the error names one.
    pub fn peer_id(&self) -> (r: Option<&PeerKey>)
        ensures
            match self {
                DispersalError::OpenStreamError { peer_id, .. } => r == Some(peer_id),
                _ => r is None,
            },
    {
        match self {
            DispersalError::OpenStreamError { peer_id, .. } => Some(peer_id),
            _ => None,
        }
    }
}

/// What can go wrong while replicating shares.
#[derive(Debug)]
pub enum ReplicationError {
    /// The stream to the peer failed, with this kind of error and this text.
    Io { peer_id: PeerKey, kind: IoErrorKind, text: String },
    /// No stream could be opened to the peer.
    OpenStream { peer_id: PeerKey, error: OpenStreamFailure },
    /// A write finished for a peer that has no pending queue.
    DequeueOutbound { peer_id: PeerKey },
}

impl ReplicationError {
    /// The peer concerned; every replication error names one.
    pub fn peer_id(&self) -> (r: Option<&PeerKey>)
        ensures
            match self {
                ReplicationError::Io { peer_id, .. } => r == Some(peer_id),
                ReplicationError::OpenStream { peer_id, .. } => r == Some(peer_id),
                ReplicationError::DequeueOutbound { peer_id } => r == Some(peer_id),
            },
    {
        match self {
            ReplicationError::Io { peer_id, .. } => Some(peer_id),
            ReplicationError::OpenStream { peer_id, .. } => Some(peer_id),
            ReplicationError::DequeueOutbound { peer_id } => Some(peer_id),
        }
    }
}

/// A sampling request as handed to the node: blob and share index.
#[derive(Debug, PartialEq, Eq, Clone, Copy)]
pub struct BehaviourSampleReq {
    pub blob_id: BlobId,
    pub share_idx: SubnetworkId,
}

/// What can go wrong while sampling.
#[allow(inconsistent_fields)]
#[derive(Debug)]
pub enum SamplingError {
    /// The stream to the peer failed, with this kind of error and this
    /// text; `message` is the request being sent, if any.
    Io { peer_id: PeerKey, kind: IoErrorKind, text: String, message: Option<SampleRequest> },
    /// The peer answered with an error.
    Protocol { subnetwork_id: SubnetworkId, peer_id: PeerKey, error: SampleError },
    /// No stream could be opened to the peer.
    OpenStream { peer_id: PeerKey, error: OpenStreamFailure },
    /// The answer could not be decoded; `error` is the decoder's text.
    Deserialize { blob_id: BlobId, subnetwork_id: SubnetworkId, peer_id: PeerKey, error: String },
    /// The request could not be handed to the node.
    RequestChannel { request: BehaviourSampleReq, peer_id: PeerKey },
    /// The requested blob id is malformed.
    InvalidBlobId { peer_id: PeerKey, blob_id: Vec<u8> },
    /// The peer does not hold the requested blob.
    BlobNotFound { peer_id: PeerKey, blob_id: Vec<u8>, subnetwork_id: SubnetworkId },
    /// The node dropped the answer channel.
    ResponseChannel { peer_id: PeerKey },
}

impl SamplingError {
    /// The peer concerned; every sampling error names one.
    pub fn peer_id(&self) -> (r: Option<&PeerKey>)
        ensures
            match self {
                SamplingError::Io { peer_id, .. } => r == Some(peer_id),
                SamplingError::Protocol { peer_id, .. } => r == Some(peer_id),
                SamplingError::OpenStream { peer_id, .. } => r == Some(peer_id),
                SamplingError::Deserialize { peer_id, .. } => r == Some(peer_id),
                SamplingError::RequestChannel { peer_id, .. } => r == Some(peer_id),
                SamplingError::InvalidBlobId { peer_id, .. } => r == Some(peer_id),
                SamplingError::BlobNotFound { peer_id, .. } => r == Some(peer_id),
                SamplingError::ResponseChannel { peer_id } => r == Some(peer_id),
            },
    {
        match self {
            SamplingError::Io { peer_id, .. } => Some(peer_id),
            SamplingError::Protocol { peer_id, .. } => Some(peer_id),
            SamplingError::OpenStream { peer_id, .. } => Some(peer_id),
            SamplingError::Deserialize { peer_id, .. } => Some(peer_id),
            SamplingError::RequestChannel { peer_id, .. } => Some(peer_id),
            SamplingError::InvalidBlobId { peer_id, .. } => Some(peer_id),
            SamplingError::BlobNotFound { peer_id, .. } => Some(peer_id),
            SamplingError::ResponseChannel { peer_id } => Some(peer_id),
        }
    }

    /// The blob concerned, when the error names one: for `BlobNotFound` only
    /// when its id has exactly 32 bytes.
    pub fn blob_id(&self) -> (r: Option<BlobId>)
        ensures
            match self {
                SamplingError::BlobNotFound { blob_id, .. } => if blob_id@.len() == 32 {
                    r matches Some(b) && b@ == blob_id@
                } else {
                    r is None
                },
                SamplingError::Deserialize { blob_id, .. } => r == Some(*blob_id),
                SamplingError::Protocol { error, .. } => r == Some(error.blob_id),
                _ => r is None,
            },
    {
        match self {
            SamplingError::BlobNotFound { blob_id, .. } => {
                if blob_id.len() != 32 {
                    return None;
                }
                let mut b: BlobId = [0u8; 32];
                let mut i: usize = 0;
                while i < 32
                    invariant
                        i <= 32,
                        blob_id@.len() == 32,
                        b@.len() == 32,
                        forall|j: int| 0 <= j < i ==> b@[j] == blob_id@[j],
                    decreases 32 - i,
                {
                    b[i] = blob_id[i];
                    i = i + 1;
                }
                assert(b@ =~= blob_id@);
                Some(b)
            },
            SamplingError::Deserialize { blob_id, .. } => Some(*blob_id),
            SamplingError::Protocol { error, .. } => Some(error.blob_id),
            _ => None,
        }
    }
}

/// Two stream-level error payloads that say the same thing.
pub open spec fn same_dispersal_err(a: DispersalErr, b: DispersalErr) -> bool {
    a.blob_id@ == b.blob_id@ && a.err_description@ == b.err_description@
}

impl DispersalErr {
    /// A copy of this error.
    pub fn duplicate(&self) -> (r: DispersalErr)
        ensures
            same_dispersal_err(r, *self),
    {
        let blob_id = self.blob_id.clone();
        assert(blob_id@ =~= self.blob_id@);
        DispersalErr { blob_id, err_description: self.err_description.clone() }
    }
}

/// `copy` is what cloning the dispersal error `orig` gives: the same kind
/// with the same fields; a stream error keeps its kind and text, and a
/// failure to open a stream is copied as [`copied_open_stream_failure`]
/// says.
pub open spec fn copied_dispersal_error(orig: DispersalError, copy: DispersalError) -> bool {
    match orig {
        DispersalError::Io { kind, text, blob_id, subnetwork_id } => copy matches DispersalError::Io {
            kind: k,
            text: t,
            blob_id: b,
            subnetwork_id: s,
        } && k == kind && t@ == text@ && b == blob_id && s == subnetwork_id,
        DispersalError::Serialization { error, blob_id, subnetwork_id } => copy matches DispersalError::Serialization {
            error: e,
            blob_id: b,
            subnetwork_id: s,
        } && e@ == error@ && b == blob_id && s == subnetwork_id,
        DispersalError::Protocol { subnetwork_id, error } => copy matches DispersalError::Protocol {
            subnetwork_id: s,
            error: e,
        } && s == subnetwork_id && same_dispersal_err(e, error),
        DispersalError::OpenStreamError { peer_id, error } => copy matches DispersalError::OpenStreamError {
            peer_id: p,
            error: e,
        } && p@ == peer_id@ && copied_open_stream_failure(error, e),
    }
}

impl Clone for DispersalError {
    /// A copy, as [`copied_dispersal_error`] says.
    fn clone(&self) -> (r: Self)
        ensures
            copied_dispersal_error(*self, r),
    {
        match self {
            DispersalError::Io { kind, text, blob_id, subnetwork_id } => DispersalError::Io {
                kind: *kind,
                text: text.clone(),
                blob_id: *blob_id,
                subnetwork_id: *subnetwork_id,
            },
            DispersalError::Serialization { error, blob_id, subnetwork_id } => DispersalError::Serialization {
                error: error.clone(),
                blob_id: *blob_id,
                subnetwork_id: *subnetwork_id,
            },
            DispersalError::Protocol { subnetwork_id, error } => DispersalError::Protocol {
                subnetwork_id: *subnetwork_id,
                error: error.duplicate(),
            },
            DispersalError::OpenStreamError { peer_id, error } => DispersalError::OpenStreamError {
                peer_id: peer_id.duplicate(),
                error: error.copy(),
            },
        }
    }
}

/// `copy` is what cloning the replication error `orig` gives: the same
/// kind with the same peer; a stream error keeps its kind and text, and a
/// failure to open a stream is copied as [`copied_open_stream_failure`]
/// says.
pub open spec fn copied_replication_error(orig: ReplicationError, copy: ReplicationError) -> bool {
    match orig {
        ReplicationError::Io { peer_id, kind, text } => copy matches ReplicationError::Io {
            peer_id: p,
            kind: k,
            text: t,
        } && p@ == peer_id@ && k == kind && t@ == text@,
        ReplicationError::OpenStream { peer_id, error } => copy matches ReplicationError::OpenStream {
            peer_id: p,
            error: e,
        } && p@ == peer_id@ && copied_open_stream_failure(error, e),
        ReplicationError::DequeueOutbound { peer_id } => copy matches ReplicationError::DequeueOutbound {
            peer_id: p,
        } && p@ == peer_id@,
    }
}

impl Clone for ReplicationError {
    /// A copy, as [`copied_replication_error`] says.
    fn clone(&self) -> (r: Self)
        ensures
            copied_replication_error(*self, r),
    {
        match self {
            ReplicationError::Io { peer_id, kind, text } => ReplicationError::Io {
                peer_id: peer_id.duplicate(),
                kind: *kind,
                text: text.clone(),
            },
            ReplicationError::OpenStream { peer_id, error } => ReplicationError::OpenStream {
                peer_id: peer_id.duplicate(),
                error: error.copy(),
            },
            ReplicationError::DequeueOutbound { peer_id } => ReplicationError::DequeueOutbound {
                peer_id: peer_id.duplicate(),
            },
        }
    }
}

/// Two sampling error answers that say the same thing.
pub open spec fn same_sample_error(a: SampleError, b: SampleError) -> bool {
    a.blob_id == b.blob_id && a.column_idx == b.column_idx && a.error_type == b.error_type
        && a.error_description@ == b.error_description@
}

/// `copy` is what cloning the sampling error `orig` gives: the same kind
/// with the same fields; a stream error keeps its kind and text, a decode
/// failure its text, and a failure to open a stream is copied as
/// [`copied_open_stream_failure`] says.
pub open spec fn copied_sampling_error(orig: SamplingError, copy: SamplingError) -> bool {
    match orig {
        SamplingError::Io { peer_id, kind, text, message } => copy matches SamplingError::Io {
            peer_id: p,
            kind: k,
            text: t,
            message: m,
        } && p@ == peer_id@ && k == kind && t@ == text@ && m == message,
        SamplingError::Protocol { subnetwork_id, peer_id, error } => copy matches SamplingError::Protocol {
            subnetwork_id: s,
            peer_id: p,
            error: e,
        } && s == subnetwork_id && p@ == peer_id@ && same_sample_error(e, error),
        SamplingError::OpenStream { peer_id, error } => copy matches SamplingError::OpenStream {
            peer_id: p,
            error: e,
        } && p@ == peer_id@ && copied_open_stream_failure(error, e),
        SamplingError::Deserialize { blob_id, subnetwork_id, peer_id, error } => copy matches SamplingError::Deserialize {
            blob_id: b,
            subnetwork_id: s,
            peer_id: p,
            error: e,
        } && b == blob_id && s == subnetwork_id && p@ == peer_id@ && e@ == error@,
        SamplingError::RequestChannel { request, peer_id } => copy matches SamplingError::RequestChannel {
            request: r,
            peer_id: p,
        } && r == request && p@ == peer_id@,
        SamplingError::InvalidBlobId { peer_id, blob_id } => copy matches SamplingError::InvalidBlobId {
            peer_id: p,
            blob_id: b,
        } && p@ == peer_id@ && b@ == blob_id@,
        SamplingError::BlobNotFound { peer_id, blob_id, subnetwork_id } => copy matches SamplingError::BlobNotFound {
            peer_id: p,
            blob_id: b,
            subnetwork_id: s,
        } && p@ == peer_id@ && b@ == blob_id@ && s == subnetwork_id,
        SamplingError::ResponseChannel { peer_id } => copy matches SamplingError::ResponseChannel { peer_id: p }
            && p@ == peer_id@,
    }
}

impl Clone for SamplingError {
    /// A copy, as [`copied_sampling_error`] says.
    fn clone(&self) -> (r: Self)
        ensures
            copied_sampling_error(*self, r),
    {
        match self {
            SamplingError::Io { peer_id, kind, text, message } => SamplingError::Io {
                peer_id: peer_id.duplicate(),
                kind: *kind,
                text: text.clone(),
                message: *message,
            },
            SamplingError::Protocol { subnetwork_id, peer_id, error } => SamplingError::Protocol {
                subnetwork_id: *subnetwork_id,
                peer_id: peer_id.duplicate(),
                error: SampleError {
                    blob_id: error.blob_id,
                    column_idx: error.column_idx,
                    error_type: error.error_type,
                    error_description: error.error_description.clone(),
                },
            },
            SamplingError::OpenStream { peer_id, error } => SamplingError::OpenStream {
                peer_id: peer_id.duplicate(),
                error: error.copy(),
            },
            SamplingError::Deserialize { blob_id, subnetwork_id, peer_id, error } => SamplingError::Deserialize {
                blob_id: *blob_id,
                subnetwork_id: *subnetwork_id,
                peer_id: peer_id.duplicate(),
                error: error.clone(),
            },
            SamplingError::RequestChannel { request, peer_id } => SamplingError::RequestChannel {
                request: *request,
                peer_id: peer_id.duplicate(),
            },
            SamplingError::InvalidBlobId { peer_id, blob_id } => {
                let b = blob_id.clone();
                assert(b@ =~= blob_id@);
                SamplingError::InvalidBlobId { peer_id: peer_id.duplicate(), blob_id: b }
            },
            SamplingError::BlobNotFound { peer_id, blob_id, subnetwork_id } => {
                let b = blob_id.clone();
                assert(b@ =~= blob_id@);
                SamplingError::BlobNotFound {
                    peer_id: peer_id.duplicate(),
                    blob_id: b,
                    subnetwork_id: *subnetwork_id,
                }
            },
            SamplingError::ResponseChannel { peer_id } => SamplingError::ResponseChannel {
                peer_id: peer_id.duplicate(),
            },
        }
    }
}

} // verus!
