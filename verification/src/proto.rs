use vstd::prelude::*;
use crate::errors::DispersalErr;

verus! {

/// A blob as carried by the dispersal wire messages: its id and its
/// encoded bytes.
#[derive(Debug)]
pub struct Blob {
    pub blob_id: Vec<u8>,
    pub data: Vec<u8>,
}

/// A request to store a blob.
#[derive(Debug)]
pub struct DispersalReq {
    pub blob: Option<Blob>,
}

/// The answer to a dispersal request: the id of the stored blob, or an
/// error.
#[derive(Debug)]
pub enum DispersalResType {
    BlobId(Vec<u8>),
    Error(DispersalErr),
}

/// The answer to a dispersal request, when there is one.
#[derive(Debug)]
pub struct DispersalRes {
    pub message_type: Option<DispersalResType>,
}

impl DispersalRes {
    /// The error the validator answered, if it answered one.
    pub fn error(self) -> (r: Option<DispersalErr>)
        ensures
            match self.message_type {
                Some(DispersalResType::Error(e)) => r == Some(e),
                _ => r is None,
            },
    {
        match self.message_type {
            Some(DispersalResType::Error(e)) => Some(e),
            _ => None,
        }
    }
}

} // verus!
