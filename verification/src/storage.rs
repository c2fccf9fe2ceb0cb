use vstd::prelude::*;
use bytes::{Bytes, BytesMut};
use vstd::string::StringSliceAdditionalSpecFns;

verus! {

/// Key prefix of the blob indexes.
pub const DA_VID_KEY_PREFIX: &'static str = "da/vid/";

/// Key prefix of the verified shared commitments.
pub const DA_SHARED_COMMITMENTS_PREFIX: &'static str = "da/verified/sc";

/// Key prefix of the verified shares.
pub const DA_SHARE_PREFIX: &'static str = "da/verified/bl";

#[verifier::external_type_specification]
#[verifier::external_body]
pub struct ExBytes(Bytes);

#[verifier::external_type_specification]
#[verifier::external_body]
pub struct ExBytesMut(BytesMut);

/// The bytes held by a `bytes::Bytes` buffer.
pub uninterp spec fn bytes_contents(b: Bytes) -> Seq<u8>;

/// The bytes held by a `bytes::BytesMut` buffer.
pub uninterp spec fn bytes_mut_contents(b: BytesMut) -> Seq<u8>;

/// `BytesMut::new`: an empty buffer.
#[verifier::external_body]
fn bytes_mut_new() -> (b: BytesMut)
    ensures
        bytes_mut_contents(b) == Seq::<u8>::empty(),
{
    BytesMut::new()
}

/// `BytesMut::extend_from_slice`: appends `data` to the buffer. It panics
/// when the grown length overflows, which `requires` leaves out.
#[verifier::external_body]
fn bytes_mut_extend_from_slice(b: &mut BytesMut, data: &[u8])
    requires
        bytes_mut_contents(*old(b)).len() + data@.len() <= isize::MAX,
    ensures
        bytes_mut_contents(*final(b)) == bytes_mut_contents(*old(b)) + data@,
{
    b.extend_from_slice(data)
}

/// `BytesMut::freeze`: the same bytes as an immutable buffer.
#[verifier::external_body]
fn bytes_mut_freeze(b: BytesMut) -> (r: Bytes)
    ensures
        bytes_contents(r) == bytes_mut_contents(b),
{
    b.freeze()
}

/// Storage key made of a prefix followed by an identifier.
pub fn key_bytes(prefix: &str, id: &[u8]) -> (key: Bytes)
    requires
        prefix.spec_bytes().len() + id@.len() <= isize::MAX,
    ensures
        bytes_contents(key) == prefix.spec_bytes() + id@,
{
    let mut buffer = bytes_mut_new();
    let p = prefix.as_bytes();
    bytes_mut_extend_from_slice(&mut buffer, p);
    bytes_mut_extend_from_slice(&mut buffer, id);
    assert(Seq::<u8>::empty() + p@ == p@);
    bytes_mut_freeze(buffer)
}

/// Index of a share: the 32-byte blob id followed by the 2-byte column
/// index, so the two lengths must add up to 34.
pub fn create_share_idx(blob_id: &[u8], column_idx: &[u8]) -> (idx: [u8; 34])
    requires
        blob_id@.len() + column_idx@.len() == 34,
    ensures
        idx@ == blob_id@ + column_idx@,
{
    let mut share_idx: [u8; 34] = [0u8; 34];
    let n = blob_id.len();
    let mut i: usize = 0;
    while i < n
        invariant
            n == blob_id@.len(),
            n + column_idx@.len() == 34,
            i <= n,
            share_idx@.len() == 34,
            forall|j: int| 0 <= j < i ==> share_idx@[j] == blob_id@[j],
        decreases n - i,
    {
        share_idx[i] = blob_id[i];
        i = i + 1;
    }
    let m = column_idx.len();
    let mut k: usize = 0;
    while k < m
        invariant
            n == blob_id@.len(),
            m == column_idx@.len(),
            n + m == 34,
            k <= m,
            share_idx@.len() == 34,
            forall|j: int| 0 <= j < n ==> share_idx@[j] == blob_id@[j],
            forall|j: int| 0 <= j < k ==> share_idx@[n + j] == column_idx@[j],
        decreases m - k,
    {
        share_idx[n + k] = column_idx[k];
        k = k + 1;
    }
    assert(share_idx@ =~= blob_id@ + column_idx@);
    share_idx
}

/// The lowercase hexadecimal digit of a value below 16.
pub open spec fn hex_digit(n: int) -> char {
    if n < 10 {
        (48 + n) as char
    } else {
        (87 + n) as char
    }
}

/// `bytes` in lowercase hexadecimal, two digits per byte, most significant
/// digit first.
pub open spec fn hex_text(bytes: Seq<u8>) -> Seq<char>
    decreases bytes.len(),
{
    if bytes.len() == 0 {
        Seq::empty()
    } else {
        hex_text(bytes.drop_last()) + seq![
            hex_digit(bytes.last() as int / 16),
            hex_digit(bytes.last() as int % 16),
        ]
    }
}

/// `hex::encode`: the bytes in lowercase hexadecimal, as the crate's
/// documentation states (two digits per byte, lowercase).
#[verifier::external_body]
fn hex_encode(data: &[u8]) -> (r: String)
    ensures
        r@ == hex_text(data@),
{
    hex::encode(data)
}

/// Where a column of a blob is stored, below the storage directory: the
/// directory named after the blob id and the file named after the column
/// index, both in lowercase hexadecimal.
pub fn blob_file_location(blob_id: &[u8], column_idx: &[u8]) -> (r: (String, String))
    ensures
        r.0@ == hex_text(blob_id@),
        r.1@ == hex_text(column_idx@),
{
    (hex_encode(blob_id), hex_encode(column_idx))
}

/// The directory holding the columns of a blob, named after the blob id in
/// lowercase hexadecimal.
pub fn blob_directory(blob_id: &[u8]) -> (r: String)
    ensures
        r@ == hex_text(blob_id@),
{
    hex_encode(blob_id)
}

} // verus!
