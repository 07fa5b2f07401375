use vstd::prelude::*;
use vstd::bytes::{
    lemma_auto_spec_u16_to_from_le_bytes, spec_u16_from_le_bytes, spec_u16_to_le_bytes,
    u16_from_le_bytes, u16_to_le_bytes,
};
use vstd::slice::{slice_subrange, slice_to_vec};
use vstd::utf8::{decode_utf8, decode_utf8_encode_utf8, encode_utf8, valid_utf8};

verus! {

/// Number of bytes in a frame header: a 16-bit message code and a 16-bit
/// payload length, both little-endian.
pub const HEADER_SIZE: usize = 4;

/// Code of the outbound broadcast soliciting IAM responses.
pub const CODE_DISCOVER: u16 = 1;

/// Code of the inbound "I am" announcement carrying a UTF-8 proxy name.
pub const CODE_IAM: u16 = 2;

/// Code of the outbound unicast sustaining a proxy's liveness.
pub const CODE_KEEPALIVE: u16 = 3;

/// Code of the inbound opaque audio payload.
pub const CODE_AUDIO: u16 = 4;

/// Code of the inbound stream-metadata payload.
pub const CODE_METADATA: u16 = 6;

/// A datagram received from a proxy, after decoding.
#[derive(Debug, PartialEq, Eq)]
pub enum IncomingProxyMessage {
    Audio(Vec<u8>),
    IAM(String),
    Metadata(Vec<u8>),
}

/// The mathematical content of an [`IncomingProxyMessage`].
pub ghost enum MessageView {
    Audio(Seq<u8>),
    IAM(Seq<char>),
    Metadata(Seq<u8>),
}

impl View for IncomingProxyMessage {
    type V = MessageView;

    open spec fn view(&self) -> MessageView {
        match self {
            IncomingProxyMessage::Audio(bytes) => MessageView::Audio(bytes@),
            IncomingProxyMessage::IAM(name) => MessageView::IAM(name@),
            IncomingProxyMessage::Metadata(bytes) => MessageView::Metadata(bytes@),
        }
    }
}

/// A datagram to be sent to a proxy.  Both variants carry no payload.
#[derive(Clone, Copy, Debug, PartialEq, Eq, Structural)]
pub enum OutgoingProxyMessage {
    Discover(),
    KeepAlive(),
}

/// Why an incoming datagram was rejected.
#[derive(Clone, Copy, Debug, PartialEq, Eq, Structural)]
pub enum DecodeError {
    /// The datagram is shorter than the 4-byte header.
    TooShort,
    /// The header announces more payload bytes than the datagram holds.
    PayloadTruncated,
    /// The code is not one of the recognized incoming codes.
    UnknownCode(u16),
    /// An IAM payload that is not valid UTF-8.
    InvalidUtf8,
}

/// Why a datagram could not be encoded.
#[derive(Clone, Copy, Debug, PartialEq, Eq, Structural)]
pub enum EncodeError {
    /// The payload length does not fit in the 16-bit length field.
    ContentTooLong,
}

/// The message code stored in a frame's header.
pub open spec fn spec_code(bytes: Seq<u8>) -> u16 {
    spec_u16_from_le_bytes(bytes.subrange(0, 2))
}

/// The payload length stored in a frame's header.
pub open spec fn spec_length(bytes: Seq<u8>) -> u16 {
    spec_u16_from_le_bytes(bytes.subrange(2, 4))
}

/// The payload slice that a frame's header announces.
pub open spec fn spec_payload(bytes: Seq<u8>) -> Seq<u8> {
    bytes.subrange(HEADER_SIZE as int, HEADER_SIZE + spec_length(bytes))
}

/// What decoding a datagram yields: the message, or the reason it is rejected.
///
/// A frame is a 4-byte header followed by exactly as many payload bytes as the
/// header announces; trailing bytes beyond the announced length are ignored.
/// Only the codes of the three inbound message kinds are accepted, and an IAM
/// payload must be valid UTF-8.
pub open spec fn spec_decode(bytes: Seq<u8>) -> Result<MessageView, DecodeError> {
    if bytes.len() < HEADER_SIZE {
        Err(DecodeError::TooShort)
    } else if bytes.len() < HEADER_SIZE + spec_length(bytes) {
        Err(DecodeError::PayloadTruncated)
    } else {
        let code = spec_code(bytes);
        let payload = spec_payload(bytes);
        if code == CODE_IAM {
            if valid_utf8(payload) {
                Ok(MessageView::IAM(decode_utf8(payload)))
            } else {
                Err(DecodeError::InvalidUtf8)
            }
        } else if code == CODE_AUDIO {
            Ok(MessageView::Audio(payload))
        } else if code == CODE_METADATA {
            Ok(MessageView::Metadata(payload))
        } else {
            Err(DecodeError::UnknownCode(code))
        }
    }
}

/// The frame that encodes `code` with the given payload: little-endian code,
/// little-endian payload length, then the payload itself.
pub open spec fn spec_frame(code: u16, content: Seq<u8>) -> Seq<u8>
    recommends
        content.len() <= u16::MAX,
{
    spec_u16_to_le_bytes(code) + spec_u16_to_le_bytes(content.len() as u16) + content
}

/// Relies on `core::str::from_utf8`: it succeeds exactly on valid UTF-8 input
/// and returns the string made of those bytes, so the string's characters are
/// the input's UTF-8 decoding.
#[verifier::external_body]
pub(crate) fn utf8_to_string(bytes: &[u8]) -> (r: Option<String>)
    ensures
        r is Some <==> valid_utf8(bytes@),
        r matches Some(s) ==> s@ == decode_utf8(bytes@),
{
    match core::str::from_utf8(bytes) {
        Ok(s) => Some(s.to_owned()),
        Err(_) => None,
    }
}

/// Decodes one datagram, exactly as [`spec_decode`] describes.
pub fn parse_msg(msg: &[u8]) -> (r: Result<IncomingProxyMessage, DecodeError>)
    ensures
        match r {
            Ok(m) => spec_decode(msg@) == Ok::<MessageView, DecodeError>(m@),
            Err(e) => spec_decode(msg@) == Err::<MessageView, DecodeError>(e),
        },
{
    if msg.len() < HEADER_SIZE {
        return Err(DecodeError::TooShort);
    }
    let code = u16_from_le_bytes(slice_subrange(msg, 0, 2));
    let length = u16_from_le_bytes(slice_subrange(msg, 2, 4));
    if msg.len() - HEADER_SIZE < length as usize {
        return Err(DecodeError::PayloadTruncated);
    }
    let payload = slice_subrange(msg, HEADER_SIZE, HEADER_SIZE + length as usize);
    assert(payload@ == spec_payload(msg@));
    if code == CODE_IAM {
        match utf8_to_string(payload) {
            Some(name) => Ok(IncomingProxyMessage::IAM(name)),
            None => Err(DecodeError::InvalidUtf8),
        }
    } else if code == CODE_AUDIO {
        Ok(IncomingProxyMessage::Audio(slice_to_vec(payload)))
    } else if code == CODE_METADATA {
        Ok(IncomingProxyMessage::Metadata(slice_to_vec(payload)))
    } else {
        Err(DecodeError::UnknownCode(code))
    }
}

/// Encodes one frame, exactly as [`spec_frame`] describes; the payload length
/// must fit the 16-bit length field.
pub fn prepare_msg(code: u16, content: &[u8]) -> (r: Result<Vec<u8>, EncodeError>)
    ensures
        content@.len() <= u16::MAX ==> (r matches Ok(v) && v@ == spec_frame(code, content@)),
        content@.len() > u16::MAX ==> r == Err::<Vec<u8>, EncodeError>(EncodeError::ContentTooLong),
{
    if content.len() > u16::MAX as usize {
        return Err(EncodeError::ContentTooLong);
    }
    let mut msg = u16_to_le_bytes(code);
    let mut length_bytes = u16_to_le_bytes(content.len() as u16);
    msg.append(&mut length_bytes);
    msg.extend_from_slice(content);
    assert(msg@ =~= spec_frame(code, content@));
    Ok(msg)
}

/// The wire code of an outbound message.
pub open spec fn spec_outgoing_code(msg: OutgoingProxyMessage) -> u16 {
    match msg {
        OutgoingProxyMessage::Discover() => CODE_DISCOVER,
        OutgoingProxyMessage::KeepAlive() => CODE_KEEPALIVE,
    }
}

/// Encodes an outbound message, which always has an empty payload.
pub fn encode_outgoing(msg: &OutgoingProxyMessage) -> (r: Vec<u8>)
    ensures
        r@ == spec_frame(spec_outgoing_code(*msg), Seq::<u8>::empty()),
{
    let code: u16 = match msg {
        OutgoingProxyMessage::Discover() => CODE_DISCOVER,
        OutgoingProxyMessage::KeepAlive() => CODE_KEEPALIVE,
    };
    let empty: Vec<u8> = Vec::new();
    match prepare_msg(code, empty.as_slice()) {
        Ok(frame) => frame,
        Err(_) => vstd::pervasive::unreached(),
    }
}

/// Round trip of the codec: a frame built from a recognized incoming code and
/// a payload that fits the length field decodes back to the same code and
/// payload.  For IAM the payload must be valid UTF-8 (for instance, the single
/// byte `0xff` is rejected); the decoded name then re-encodes to the original
/// payload bytes.
pub proof fn lemma_codec_round_trip(code: u16, content: Seq<u8>)
    requires
        content.len() <= u16::MAX,
        code == CODE_IAM || code == CODE_AUDIO || code == CODE_METADATA,
        code == CODE_IAM ==> valid_utf8(content),
    ensures
        code == CODE_IAM ==> spec_decode(spec_frame(code, content)) == Ok::<
            MessageView,
            DecodeError,
        >(MessageView::IAM(decode_utf8(content))),
        code == CODE_IAM ==> encode_utf8(decode_utf8(content)) == content,
        code == CODE_AUDIO ==> spec_decode(spec_frame(code, content)) == Ok::<
            MessageView,
            DecodeError,
        >(MessageView::Audio(content)),
        code == CODE_METADATA ==> spec_decode(spec_frame(code, content)) == Ok::<
            MessageView,
            DecodeError,
        >(MessageView::Metadata(content)),
{
    lemma_auto_spec_u16_to_from_le_bytes();
    let bytes = spec_frame(code, content);
    assert(bytes.subrange(0, 2) =~= spec_u16_to_le_bytes(code));
    assert(bytes.subrange(2, 4) =~= spec_u16_to_le_bytes(content.len() as u16));
    assert(spec_payload(bytes) =~= content);
    if code == CODE_IAM {
        decode_utf8_encode_utf8(content);
    }
}

} // verus!
