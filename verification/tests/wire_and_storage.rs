use futures::io::{AsyncReadExt, AsyncWriteExt, Cursor};
use nomos_da::messages::{
    Blob, CloseMessage, CloseMessageReason, DispersalErrorType, DispersalRequest, LightShare,
    ReplicationRequest, ReplicationResponseId, SampleErrorType, SampleRequest, Share,
};
use nomos_da::packing::{
    get_packed_message_size, pack_message, prepare_message_for_writer, read_data_length,
    read_frame, PackingError, MAX_MSG_LEN, MAX_MSG_LEN_BYTES,
};
use nomos_da::storage::{
    blob_directory, blob_file_location, create_share_idx, key_bytes, DA_SHARE_PREFIX,
    DA_SHARED_COMMITMENTS_PREFIX, DA_VID_KEY_PREFIX,
};

#[test]
fn pack_and_unpack() {
    let payload: Vec<u8> = (0..32u8).collect();
    let framed = prepare_message_for_writer(&payload).unwrap();
    assert_eq!(framed.len(), MAX_MSG_LEN_BYTES + 32);
    assert_eq!(&framed[..2], &[0, 32]);
    let (unpacked, used) = read_frame(&framed).unwrap();
    assert_eq!(unpacked, payload);
    assert_eq!(used, framed.len());
}

#[test]
fn frame_prefix_is_big_endian() {
    let payload = vec![9u8; 300];
    let framed = prepare_message_for_writer(&payload).unwrap();
    assert_eq!(&framed[..2], &[1, 44]);
    assert_eq!(read_data_length([1, 44]), 300);
    assert_eq!(read_data_length([255, 255]), 65535);
}

#[test]
fn pack_to_writer_too_large_message() {
    let payload = vec![0u8; MAX_MSG_LEN + 1];
    match prepare_message_for_writer(&payload) {
        Err(PackingError::MessageTooLarge { actual }) => assert_eq!(actual, MAX_MSG_LEN + 1),
        _ => panic!("expected a too large error"),
    }
    match get_packed_message_size(&payload) {
        Err(PackingError::MessageTooLarge { actual }) => assert_eq!(actual, MAX_MSG_LEN + 1),
        _ => panic!("expected a too large error"),
    }
    assert_eq!(get_packed_message_size(&[1, 2, 3]).ok(), Some(3));
}

#[test]
fn largest_framed_message_reads_back() {
    let payload = vec![5u8; MAX_MSG_LEN - 1];
    let framed = prepare_message_for_writer(&payload).unwrap();
    assert_eq!(&framed[..2], &[255, 255]);
    let (unpacked, used) = read_frame(&framed).unwrap();
    assert_eq!(unpacked, payload);
    assert_eq!(used, MAX_MSG_LEN + 1);
    let too_long = vec![5u8; MAX_MSG_LEN];
    assert!(matches!(
        prepare_message_for_writer(&too_long),
        Err(PackingError::MessageTooLarge { actual }) if actual == MAX_MSG_LEN
    ));
    assert!(matches!(
        pack_message(&too_long),
        Err(PackingError::MessageTooLarge { actual }) if actual == MAX_MSG_LEN
    ));
}

#[test]
fn read_frame_reports_truncation() {
    assert!(matches!(read_frame(&[0]), Err(PackingError::UnexpectedEof)));
    assert!(matches!(read_frame(&[0, 3, 1, 2]), Err(PackingError::UnexpectedEof)));
    let (payload, used) = read_frame(&[0, 2, 7, 8, 9]).unwrap();
    assert_eq!(payload, vec![7, 8]);
    assert_eq!(used, 4);
}

#[test]
fn pack_message_frames_encoded_bytes() {
    let framed = pack_message(&[1, 2, 3]).unwrap();
    assert_eq!(framed, vec![0, 3, 1, 2, 3]);
    assert!(matches!(
        pack_message(&vec![0u8; MAX_MSG_LEN + 2]),
        Err(PackingError::MessageTooLarge { actual }) if actual == MAX_MSG_LEN + 2
    ));
}

#[test]
fn test_pack_and_unpack_from_reader() {
    let mut stream = prepare_message_for_writer(&[10, 20]).unwrap();
    stream.extend(prepare_message_for_writer(&[30]).unwrap());
    let (first, used) = read_frame(&stream).unwrap();
    assert_eq!(first, vec![10, 20]);
    let (second, _) = read_frame(&stream[used..]).unwrap();
    assert_eq!(second, vec![30]);
}

#[test]
fn replication_id_is_blob_then_subnetwork() {
    let share = Share::new([3u8; 32], vec![1, 2]);
    let request = ReplicationRequest::new(share, 0x0102);
    let id = request.id();
    let mut expected = [3u8; 34];
    expected[32] = 1;
    expected[33] = 2;
    assert_eq!(id.bytes, expected);
    assert_eq!(ReplicationResponseId::from_parts([3u8; 32], 0x0102), id);
    assert_ne!(ReplicationResponseId::from_parts([3u8; 32], 0x0201), id);
    assert_eq!(ReplicationResponseId::from(([3u8; 32], 0x0102)), id);
    let copy = request.duplicate();
    assert_eq!(copy.share.data, vec![1, 2]);
    assert_eq!(copy.subnetwork_id, 0x0102);
}

#[test]
fn message_constructors_keep_their_fields() {
    let close = CloseMessage::new(CloseMessageReason::SubnetChange);
    assert_eq!(close.reason, CloseMessageReason::SubnetChange);
    let blob = Blob::new([1; 32], vec![4, 5]);
    let copy = blob.duplicate();
    assert_eq!(copy.blob_id, [1; 32]);
    assert_eq!(copy.data, vec![4, 5]);
    let request = DispersalRequest::new(blob, 9);
    assert_eq!(request.subnetwork_id, 9);
    assert_eq!(request.blob.data, vec![4, 5]);
    let light = LightShare::new([2; 32], 3, vec![6]);
    assert_eq!(light.share_idx, 3);
    let sample = SampleRequest::new([8; 32], 12);
    assert_eq!(sample.column_idx, 12);
    let err = nomos_da::messages::DispersalError::new(
        [0; 32],
        DispersalErrorType::Verification,
        String::from("invalid"),
    );
    assert_eq!(err.error_description, "invalid");
    let sample_err = nomos_da::messages::SampleError::new(
        [0; 32],
        4,
        SampleErrorType::NotFound,
        String::from("missing"),
    );
    assert_eq!(sample_err.column_idx, 4);
}

#[test]
fn share_index_is_blob_id_then_column() {
    let blob_id = [7u8; 32];
    let column: [u8; 2] = [0, 5];
    let idx = create_share_idx(&blob_id, &column);
    assert_eq!(&idx[..32], &blob_id);
    assert_eq!(&idx[32..], &column);
}

#[test]
fn storage_keys_are_prefix_then_id() {
    let key = key_bytes(DA_VID_KEY_PREFIX, &[1, 2, 3]);
    assert_eq!(&key[..], b"da/vid/\x01\x02\x03");
    let key = key_bytes(DA_SHARE_PREFIX, &[]);
    assert_eq!(&key[..], DA_SHARE_PREFIX.as_bytes());
    assert_eq!(DA_SHARED_COMMITMENTS_PREFIX, "da/verified/sc");
}

#[test]
fn blob_files_are_named_in_lowercase_hex() {
    let (dir, file) = blob_file_location(&[0xab, 0x01], &[0x00, 0x0f]);
    assert_eq!(dir, "ab01");
    assert_eq!(file, "000f");
    assert_eq!(blob_directory(&[0xff, 0x10]), "ff10");
    assert_eq!(blob_directory(&[]), "");
}

#[test]
fn pack_to_writer_and_unpack_from_reader() {
    let message: (u16, Vec<u8>) = (7, vec![0; 32]);
    let packed = bincode::serialize(&message).unwrap();
    let mut writer = Cursor::new(Vec::new());
    futures::executor::block_on(async {
        let frame = prepare_message_for_writer(&packed).unwrap();
        writer.write_all(&frame).await.unwrap();
    });
    let mut reader = Cursor::new(writer.into_inner());
    let unpacked: (u16, Vec<u8>) = futures::executor::block_on(async {
        let mut length_prefix = [0u8; MAX_MSG_LEN_BYTES];
        reader.read_exact(&mut length_prefix).await.unwrap();
        let mut data = vec![0u8; read_data_length(length_prefix)];
        reader.read_exact(&mut data).await.unwrap();
        bincode::deserialize(&data).unwrap()
    });
    assert_eq!(message, unpacked);
}
