use tezos_smart_rollup::inbox::InboxMessage as ProtocolMessage;
use tezos_smart_rollup::michelson::MichelsonBytes;
use vstd::prelude::*;

verus! {

/// The tag byte that the protocol gives an external inbox message.
pub const EXTERNAL_TAG: u8 = 1;

/// Number of header bytes that follow the tag: the level and the counter.
pub const HEADER_LEN: usize = 8;

/// A decoded envelope: the level it was ingested at, its position within that
/// level, and the uninterpreted payload bytes.
#[derive(Debug, Clone, PartialEq, Eq)]
pub struct InboxMessage {
    pub level: u32,
    pub counter: u32,
    pub payload: Vec<u8>,
}

/// The mathematical value of an [`InboxMessage`].
pub ghost struct MessageView {
    pub level: u32,
    pub counter: u32,
    pub payload: Seq<u8>,
}

impl View for InboxMessage {
    type V = MessageView;

    open spec fn view(&self) -> MessageView {
        MessageView { level: self.level, counter: self.counter, payload: self.payload@ }
    }
}

/// Why a buffer did not decode to an [`InboxMessage`].
#[derive(Debug, Clone, Copy, PartialEq, Eq, Structural)]
pub enum DecodeError {
    /// The protocol framing rejected the bytes: empty input, an unknown tag,
    /// or a malformed internal message.
    Malformed,
    /// A well-formed internal message of the protocol, which carries no envelope.
    Internal,
    /// An external message too short to hold the level and the counter.
    Truncated,
}

/// The big-endian `u32` held by the four bytes of `b` from index `i`.
pub open spec fn be_u32(b: Seq<u8>, i: int) -> u32 {
    (b[i] as u32) << 24u32 | (b[i + 1] as u32) << 16u32 | (b[i + 2] as u32) << 8u32 | (b[i + 3] as u32)
}

/// Reads the big-endian `u32` at index `i` of `b`: the level at `0`, the
/// counter at `4`.
fn read_be_u32(b: &Vec<u8>, i: usize) -> (r: u32)
    requires
        i <= 4,
        i + 4 <= b@.len(),
    ensures
        r == be_u32(b@, i as int),
{
    (b[i] as u32) << 24u32 | (b[i + 1] as u32) << 16u32 | (b[i + 2] as u32) << 8u32 | (b[i + 3] as u32)
}

/// What the protocol's inbox framing finds in a raw buffer.
#[derive(Debug)]
pub enum Frame {
    /// An internal message, produced by the protocol itself.
    Internal,
    /// An external message, with the bytes that follow its tag.
    External(Vec<u8>),
}

/// The mathematical value of a [`Frame`].
pub ghost enum FrameView {
    Internal,
    External(Seq<u8>),
}

impl View for Frame {
    type V = FrameView;

    open spec fn view(&self) -> FrameView {
        match self {
            Frame::Internal => FrameView::Internal,
            Frame::External(rest) => FrameView::External(rest@),
        }
    }
}

/// The value of an optional frame.
pub open spec fn frame_view(f: Option<Frame>) -> Option<FrameView> {
    match f {
        Some(frame) => Some(frame@),
        None => None,
    }
}

/// Whether the protocol's decoder accepts `b` as an internal inbox message
/// (tag byte included).
pub uninterp spec fn internal_message_parses(b: Seq<u8>) -> bool;

/// The frame that the protocol reads from `b`: a tag byte, `0` for an internal
/// message and `1` for an external one whose contents are all the bytes after
/// the tag; any other tag, or no byte at all, is rejected. An internal message
/// needs at least its own kind byte after the tag, and is read when
/// `internal_ok` says that the protocol accepts it.
pub open spec fn protocol_frame(b: Seq<u8>, internal_ok: bool) -> Option<FrameView> {
    if b.len() == 0 {
        None
    } else if b[0] == EXTERNAL_TAG {
        Some(FrameView::External(b.subrange(1, b.len() as int)))
    } else if b[0] == 0 && b.len() > 1 && internal_ok {
        Some(FrameView::Internal)
    } else {
        None
    }
}

/// Relies on `tezos_smart_rollup::inbox::InboxMessage::<MichelsonBytes>::parse`
/// to read the protocol's framing of an inbox message: a `u8` tag, `0` for an
/// internal message (decoded further by the protocol's own rules) and `1` for
/// an external message whose contents are the rest of the input.
#[verifier::external_body]
fn parse_frame(b: &[u8]) -> (r: Option<Frame>)
    ensures
        frame_view(r) == protocol_frame(b@, internal_message_parses(b@)),
{
    match ProtocolMessage::<MichelsonBytes>::parse(b) {
        Ok((_, ProtocolMessage::Internal(_))) => Some(Frame::Internal),
        Ok((_, ProtocolMessage::External(rest))) => Some(Frame::External(rest.to_vec())),
        Err(_) => None,
    }
}

/// The envelope held by the contents of an external message: the level and the
/// counter as big-endian `u32`s, then the payload.
pub open spec fn envelope_of(rest: Seq<u8>) -> Result<MessageView, DecodeError> {
    if rest.len() < HEADER_LEN {
        Err(DecodeError::Truncated)
    } else {
        Ok(
            MessageView {
                level: be_u32(rest, 0),
                counter: be_u32(rest, 4),
                payload: rest.subrange(HEADER_LEN as int, rest.len() as int),
            },
        )
    }
}

/// What a frame decodes to.
pub open spec fn decode_frame_spec(f: Option<FrameView>) -> Result<MessageView, DecodeError> {
    match f {
        None => Err(DecodeError::Malformed),
        Some(FrameView::Internal) => Err(DecodeError::Internal),
        Some(FrameView::External(rest)) => envelope_of(rest),
    }
}

/// What a raw buffer decodes to.
pub open spec fn decode_spec(b: Seq<u8>) -> Result<MessageView, DecodeError> {
    decode_frame_spec(protocol_frame(b, internal_message_parses(b)))
}

/// The value of a decode result.
pub open spec fn result_view(r: Result<InboxMessage, DecodeError>) -> Result<MessageView, DecodeError> {
    match r {
        Ok(m) => Ok(m@),
        Err(e) => Err(e),
    }
}

/// Decodes the envelope carried by a frame of the protocol.
pub fn decode_frame(frame: Option<Frame>) -> (r: Result<InboxMessage, DecodeError>)
    ensures
        result_view(r) == decode_frame_spec(frame_view(frame)),
{
    match frame {
        None => Err(DecodeError::Malformed),
        Some(Frame::Internal) => Err(DecodeError::Internal),
        Some(Frame::External(rest)) => {
            if rest.len() < HEADER_LEN {
                return Err(DecodeError::Truncated);
            }
            let level = read_be_u32(&rest, 0);
            let counter = read_be_u32(&rest, 4);
            let mut payload: Vec<u8> = Vec::new();
            let mut i: usize = HEADER_LEN;
            while i < rest.len()
                invariant
                    HEADER_LEN <= i <= rest@.len(),
                    payload@ == rest@.subrange(HEADER_LEN as int, i as int),
                decreases rest@.len() - i,
            {
                payload.push(rest[i]);
                i = i + 1;
            }
            Ok(InboxMessage { level, counter, payload })
        },
    }
}

/// Decodes a raw inbox buffer into its envelope. Any buffer that is not an
/// external message with a complete header gives an error; decoding never
/// fails otherwise.
pub fn decode(b: &[u8]) -> (r: Result<InboxMessage, DecodeError>)
    ensures
        result_view(r) == decode_spec(b@),
{
    decode_frame(parse_frame(b))
}

/// The four big-endian bytes of `x`.
pub open spec fn be_bytes(x: u32) -> Seq<u8> {
    seq![(x >> 24u32) as u8, (x >> 16u32) as u8, (x >> 8u32) as u8, x as u8]
}

/// The buffer that carries an envelope: the external tag, the level, the
/// counter, then the payload.
pub open spec fn encode_spec(level: u32, counter: u32, payload: Seq<u8>) -> Seq<u8> {
    seq![EXTERNAL_TAG] + be_bytes(level) + be_bytes(counter) + payload
}

/// Appends the four big-endian bytes of `x` to `out`.
fn push_be_u32(out: &mut Vec<u8>, x: u32)
    ensures
        final(out)@ == old(out)@ + be_bytes(x),
{
    out.push((x >> 24u32) as u8);
    out.push((x >> 16u32) as u8);
    out.push((x >> 8u32) as u8);
    out.push(x as u8);
    assert(final(out)@ =~= old(out)@ + be_bytes(x));
}

/// Frames an envelope as an external inbox message.
pub fn encode(level: u32, counter: u32, payload: &[u8]) -> (r: Vec<u8>)
    ensures
        r@ == encode_spec(level, counter, payload@),
{
    let mut out: Vec<u8> = Vec::new();
    out.push(EXTERNAL_TAG);
    push_be_u32(&mut out, level);
    push_be_u32(&mut out, counter);
    let mut i: usize = 0;
    while i < payload.len()
        invariant
            i <= payload@.len(),
            out@ == seq![EXTERNAL_TAG] + be_bytes(level) + be_bytes(counter) + payload@.subrange(0, i as int),
        decreases payload@.len() - i,
    {
        out.push(payload[i]);
        i = i + 1;
        assert(out@ =~= seq![EXTERNAL_TAG] + be_bytes(level) + be_bytes(counter) + payload@.subrange(0, i as int));
    }
    assert(payload@.subrange(0, payload@.len() as int) =~= payload@);
    out
}


/// Reading back the four big-endian bytes of `x` gives `x`.
proof fn lemma_be_bytes_read_back(x: u32)
    ensures
        be_u32(be_bytes(x), 0) == x,
{
    let b0 = (x >> 24u32) as u8;
    let b1 = (x >> 16u32) as u8;
    let b2 = (x >> 8u32) as u8;
    let b3 = x as u8;
    assert((b0 as u32) << 24u32 | (b1 as u32) << 16u32 | (b2 as u32) << 8u32 | (b3 as u32) == x)
        by (bit_vector)
        requires
            b0 == (x >> 24u32) as u8,
            b1 == (x >> 16u32) as u8,
            b2 == (x >> 8u32) as u8,
            b3 == x as u8,
    ;
}

/// Decoding is a function of the bytes alone: equal buffers decode to equal
/// results, whatever else has happened in between.
pub proof fn lemma_decode_is_deterministic(a: Seq<u8>, b: Seq<u8>)
    requires
        a == b,
    ensures
        decode_spec(a) == decode_spec(b),
{
}

/// Encoding an envelope and decoding the resulting buffer gives back the same
/// level, counter and payload.
pub proof fn lemma_round_trip(level: u32, counter: u32, payload: Seq<u8>)
    ensures
        decode_spec(encode_spec(level, counter, payload)) == Ok::<MessageView, DecodeError>(
            MessageView { level, counter, payload },
        ),
{
    let b = encode_spec(level, counter, payload);
    let rest = b.subrange(1, b.len() as int);
    assert(rest =~= be_bytes(level) + be_bytes(counter) + payload);
    lemma_be_bytes_read_back(level);
    lemma_be_bytes_read_back(counter);
    assert(rest.subrange(0, 4) =~= be_bytes(level));
    assert(rest.subrange(4, 8) =~= be_bytes(counter));
    assert(be_u32(rest, 0) == be_u32(be_bytes(level), 0));
    assert(be_u32(rest, 4) == be_u32(be_bytes(counter), 0)) by {
        assert(rest[4] == be_bytes(counter)[0]);
        assert(rest[5] == be_bytes(counter)[1]);
        assert(rest[6] == be_bytes(counter)[2]);
        assert(rest[7] == be_bytes(counter)[3]);
    }
    assert(rest.subrange(HEADER_LEN as int, rest.len() as int) =~= payload);
}

/// The empty buffer decodes to an error, never to a default envelope.
pub proof fn lemma_empty_is_rejected()
    ensures
        decode_spec(Seq::<u8>::empty()) == Err::<MessageView, DecodeError>(DecodeError::Malformed),
{
}

/// A buffer that ends before the level and the counter are complete decodes to
/// an error; after the external tag that error is [`DecodeError::Truncated`].
pub proof fn lemma_short_buffer_is_rejected(b: Seq<u8>)
    requires
        b.len() < 1 + HEADER_LEN,
    ensures
        decode_spec(b) is Err,
        b.len() > 0 && b[0] == EXTERNAL_TAG ==> decode_spec(b) == Err::<MessageView, DecodeError>(
            DecodeError::Truncated,
        ),
{
}

} // verus!
