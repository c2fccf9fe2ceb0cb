use vstd::prelude::*;

verus! {

/// Number of bytes of the big-endian length prefix in front of every frame.
pub const MAX_MSG_LEN_BYTES: usize = 2;

/// Number of payload lengths the 16-bit prefix can announce: a payload is
/// framed only when it is shorter than this.
pub const MAX_MSG_LEN: usize = 65536;

/// Why a message could not be framed or a frame could not be read back.
#[derive(Debug, PartialEq, Eq, Structural)]
pub enum PackingError {
    /// The payload is [`MAX_MSG_LEN`] bytes or longer, too long for its
    /// length prefix.
    MessageTooLarge { actual: usize },
    /// The input ended before the announced number of bytes.
    UnexpectedEof,
}

/// The two prefix bytes written in front of a payload of `len` bytes: the
/// length truncated to 16 bits, most significant byte first.
pub open spec fn length_prefix(len: nat) -> Seq<u8> {
    seq![((len % 65536) / 256) as u8, (len % 256) as u8]
}

/// The value of a big-endian 16-bit prefix.
pub open spec fn prefix_value(hi: u8, lo: u8) -> nat {
    (hi as nat) * 256 + (lo as nat)
}

/// The frame written for `payload`: its length prefix followed by the payload.
pub open spec fn frame_of(payload: Seq<u8>) -> Seq<u8> {
    length_prefix(payload.len()) + payload
}

/// Length of a packed message, refused when the 16-bit prefix cannot
/// announce it (from [`MAX_MSG_LEN`] bytes on).
pub fn get_packed_message_size(packed_message: &[u8]) -> (r: Result<usize, PackingError>)
    ensures
        packed_message@.len() < MAX_MSG_LEN ==> r == Ok::<usize, PackingError>(
            packed_message@.len() as usize,
        ),
        packed_message@.len() >= MAX_MSG_LEN ==> r == Err::<usize, PackingError>(
            PackingError::MessageTooLarge { actual: packed_message@.len() as usize },
        ),
{
    let data_length = packed_message.len();
    if data_length >= MAX_MSG_LEN {
        return Err(PackingError::MessageTooLarge { actual: data_length });
    }
    Ok(data_length)
}

/// Big-endian bytes of the length truncated to 16 bits.
fn length_prefix_bytes(len: usize) -> (r: (u8, u8))
    ensures
        seq![r.0, r.1] == length_prefix(len as nat),
{
    let short: u16 = len as u16;
    let hi: u8 = ((short >> 8u16) & 0xffu16) as u8;
    let lo: u8 = (short & 0xffu16) as u8;
    assert(short as int == len as int % 65536) by (bit_vector)
        requires
            short == len as u16,
    ;
    assert(hi as int == short as int / 256 && lo as int == short as int % 256) by (bit_vector)
        requires
            hi == ((short >> 8u16) & 0xffu16) as u8,
            lo == (short & 0xffu16) as u8,
    ;
    assert((len as int % 65536) % 256 == len as int % 256) by (nonlinear_arith);
    (hi, lo)
}

/// Frames a packed message for writing: its 16-bit big-endian length
/// followed by its bytes. Refused from [`MAX_MSG_LEN`] bytes on, where the
/// prefix could not announce the length. Every frame it gives announces
/// exactly the length of the payload that follows.
pub fn prepare_message_for_writer(packed_message: &[u8]) -> (r: Result<Vec<u8>, PackingError>)
    ensures
        packed_message@.len() < MAX_MSG_LEN ==> (r matches Ok(buf) && buf@ == frame_of(
            packed_message@,
        )),
        packed_message@.len() >= MAX_MSG_LEN ==> r == Err::<Vec<u8>, PackingError>(
            PackingError::MessageTooLarge { actual: packed_message@.len() as usize },
        ),
        r matches Ok(buf) ==> {
            &&& buf@.len() == 2 + packed_message@.len()
            &&& prefix_value(buf@[0], buf@[1]) == packed_message@.len()
            &&& buf@.subrange(2, buf@.len() as int) == packed_message@
        },
{
    let data_length = match get_packed_message_size(packed_message) {
        Ok(n) => n,
        Err(e) => return Err(e),
    };
    let (hi, lo) = length_prefix_bytes(data_length);
    let mut buffer: Vec<u8> = Vec::with_capacity(MAX_MSG_LEN_BYTES + data_length);
    buffer.push(hi);
    buffer.push(lo);
    buffer.extend_from_slice(packed_message);
    assert(buffer@ =~= frame_of(packed_message@));
    proof {
        lemma_frame_roundtrip(packed_message@);
    }
    Ok(buffer)
}

/// Frames an encoded wire message: the same framing as
/// [`prepare_message_for_writer`], refused from [`MAX_MSG_LEN`] bytes on.
pub fn pack_message(encoded: &[u8]) -> (r: Result<Vec<u8>, PackingError>)
    ensures
        encoded@.len() < MAX_MSG_LEN ==> (r matches Ok(buf) && buf@ == frame_of(encoded@)),
        encoded@.len() >= MAX_MSG_LEN ==> r == Err::<Vec<u8>, PackingError>(
            PackingError::MessageTooLarge { actual: encoded@.len() as usize },
        ),
{
    prepare_message_for_writer(encoded)
}

/// Payload length announced by a big-endian 16-bit prefix.
pub fn read_data_length(length_prefix: [u8; 2]) -> (r: usize)
    ensures
        r == prefix_value(length_prefix@[0], length_prefix@[1]),
{
    let hi = length_prefix[0] as usize;
    let lo = length_prefix[1] as usize;
    hi * 256 + lo
}

/// Reads one frame from the front of `data`: the 16-bit length prefix and
/// that many payload bytes. Returns the payload and the number of bytes the
/// frame took, or `UnexpectedEof` when `data` ends before the frame does.
pub fn read_frame(data: &[u8]) -> (r: Result<(Vec<u8>, usize), PackingError>)
    ensures
        data@.len() < 2 ==> r == Err::<(Vec<u8>, usize), PackingError>(
            PackingError::UnexpectedEof,
        ),
        data@.len() >= 2 ==> {
            let n = prefix_value(data@[0], data@[1]) as int;
            &&& data@.len() < 2 + n ==> r == Err::<(Vec<u8>, usize), PackingError>(
                PackingError::UnexpectedEof,
            )
            &&& data@.len() >= 2 + n ==> (r matches Ok((payload, used)) && payload@ == data@.subrange(
                2,
                2 + n,
            ) && used == 2 + n)
        },
{
    if data.len() < MAX_MSG_LEN_BYTES {
        return Err(PackingError::UnexpectedEof);
    }
    let n = read_data_length([data[0], data[1]]);
    if data.len() - MAX_MSG_LEN_BYTES < n {
        return Err(PackingError::UnexpectedEof);
    }
    let mut payload: Vec<u8> = Vec::with_capacity(n);
    let mut i: usize = 0;
    while i < n
        invariant
            i <= n,
            n + 2 <= data@.len(),
            data@.len() == data.len(),
            payload@ == data@.subrange(2, 2 + i),
        decreases n - i,
    {
        payload.push(data[2 + i]);
        i = i + 1;
        assert(payload@ =~= data@.subrange(2, 2 + i));
    }
    Ok((payload, n + 2))
}

/// A frame written by [`prepare_message_for_writer`] reads back as the same
/// payload, for every payload it accepts (shorter than [`MAX_MSG_LEN`]).
pub proof fn lemma_frame_roundtrip(payload: Seq<u8>)
    requires
        payload.len() < MAX_MSG_LEN,
    ensures
        ({
            let frame = frame_of(payload);
            &&& frame.len() == payload.len() + 2
            &&& prefix_value(frame[0], frame[1]) == payload.len()
            &&& frame.subrange(2, 2 + payload.len() as int) == payload
        }),
{
    let frame = frame_of(payload);
    let n = payload.len();
    assert(n % 65536 == n);
    assert((n / 256) * 256 + n % 256 == n) by (nonlinear_arith);
    assert(n / 256 < 256) by (nonlinear_arith)
        requires
            n < 65536,
    ;
    assert(frame.subrange(2, 2 + n as int) =~= payload);
}

/// Frames written one after another read back in turn: the front of
/// `frame_of(payload) + rest` announces `payload`'s length, reading it
/// takes exactly `2 + payload.len()` bytes and gives `payload`, and what
/// is left is `rest`, for every payload the writer accepts.
pub proof fn lemma_frames_read_in_turn(payload: Seq<u8>, rest: Seq<u8>)
    requires
        payload.len() < MAX_MSG_LEN,
    ensures
        ({
            let data = frame_of(payload) + rest;
            let n = prefix_value(data[0], data[1]) as int;
            &&& n == payload.len()
            &&& data.len() >= 2 + n
            &&& data.subrange(2, 2 + n) == payload
            &&& data.subrange(2 + n, data.len() as int) == rest
        }),
{
    let frame = frame_of(payload);
    let data = frame + rest;
    lemma_frame_roundtrip(payload);
    assert(data[0] == frame[0] && data[1] == frame[1]);
    let n = payload.len() as int;
    assert(data.subrange(2, 2 + n) =~= frame.subrange(2, 2 + n));
    assert(data.subrange(2 + n, data.len() as int) =~= rest);
}

/// Two frames written one after the other read back as the two payloads:
/// the first read gives the first payload and leaves the second frame,
/// which reads back as the second payload.
pub proof fn lemma_two_frames_read_in_turn(first: Seq<u8>, second: Seq<u8>)
    requires
        first.len() < MAX_MSG_LEN,
        second.len() < MAX_MSG_LEN,
    ensures
        ({
            let data = frame_of(first) + frame_of(second);
            let n = prefix_value(data[0], data[1]) as int;
            let left = data.subrange(2 + n, data.len() as int);
            let m = prefix_value(left[0], left[1]) as int;
            &&& data.subrange(2, 2 + n) == first
            &&& left == frame_of(second)
            &&& left.len() == 2 + m
            &&& left.subrange(2, 2 + m) == second
        }),
{
    lemma_frames_read_in_turn(first, frame_of(second));
    lemma_frame_roundtrip(second);
}

} // verus!
