use nomos_da::proto::{Blob, DispersalReq, DispersalRes, DispersalResType};
use nomos_da::errors::DispersalErr;
use nomos_da::validator::dispersal_response_for;

#[test]
fn dispersal_message() {
    let blob = Blob {
        blob_id: vec![0; 32],
        data: vec![1; 32],
    };
    let req = DispersalReq { blob: Some(blob) };

    assert_eq!(req.blob.unwrap().blob_id, vec![0; 32]);
}

#[test]
fn dispersal_dispersal_message() {
    let blob = Blob {
        blob_id: vec![0; 32],
        data: vec![1; 32],
    };
    let req = DispersalReq { blob: Some(blob) };

    assert_eq!(req.blob.unwrap().blob_id, vec![0; 32]);
}

#[test]
fn test() {}

#[test]
fn validator_acknowledges_with_the_blob_id() {
    let req = DispersalReq {
        blob: Some(Blob {
            blob_id: vec![7; 32],
            data: vec![1, 2, 3],
        }),
    };
    let res = dispersal_response_for(&req);
    match res.message_type {
        Some(DispersalResType::BlobId(id)) => assert_eq!(id, vec![7; 32]),
        _ => panic!("expected the blob id"),
    }
}

#[test]
fn dispersal_response_error_is_extracted() {
    let res = DispersalRes {
        message_type: Some(DispersalResType::Error(DispersalErr {
            blob_id: vec![1; 32],
            err_description: String::from("bad"),
        })),
    };
    let err = res.error().expect("an error");
    assert_eq!(err.blob_id, vec![1; 32]);
    assert_eq!(err.err_description, "bad");
    let ok = DispersalRes {
        message_type: Some(DispersalResType::BlobId(vec![2; 32])),
    };
    assert!(ok.error().is_none());
    let none = DispersalRes { message_type: None };
    assert!(none.error().is_none());
}
