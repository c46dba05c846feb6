//! The frames that two connected nodes exchange. Each exchange starts with a
//! header of `HEADER_FRAME_SIZE` bytes; a type declaration is followed by the
//! type's name and a transmitted message by its payload, of the length that the
//! header gives. How a header is laid out in its frame is the wire encoding's
//! business; this module frames it and decides what each header means.

use vstd::prelude::*;
use vstd::utf8::{decode_utf8, encode_utf8, valid_utf8};

use crate::address::{Address, NetAddress};
use crate::type_keys::ForeignTypeKey;

verus! {

/// The size of a header frame, in bytes.
pub const HEADER_FRAME_SIZE: usize = 48;

/// The greatest length of a name or a payload: their lengths travel as `u16`.
pub const MAX_BODY_LEN: usize = 0xffff;

/// The first header of a connection: the protocol magic and the encoded
/// capabilities, padded with zeroes.
#[derive(Debug, Clone)]
pub struct Hello(pub Vec<u8>);

/// The sender reaches `net_address` for messages of its type `type_handle` at
/// `metric`; no metric: it no longer does.
#[derive(Debug, Clone, Copy, PartialEq, Eq, Structural)]
pub struct SubnetDistance<K> {
    pub net_address: NetAddress,
    pub type_handle: K,
    pub metric: Option<u8>,
}

/// The sender names its type `message_type`; the name, of `type_name_len`
/// bytes of UTF-8, follows the header.
#[derive(Debug, Clone, Copy, PartialEq, Eq, Structural)]
pub struct DeclareType<K> {
    pub message_type: K,
    pub type_name_len: u16,
}

/// A message of the sender's type `message_type` for `dst_address`; its
/// payload, of `payload_size` bytes, follows the header.
#[derive(Debug, Clone, Copy, PartialEq, Eq, Structural)]
pub struct TransmitMessage<K> {
    pub dst_address: Address,
    pub message_type: K,
    pub trace_id: u64,
    pub origin_seq_no: u64,
    pub payload_size: u16,
    pub ttl: u8,
    pub priority: bool,
}

/// A header, with the sender's type keys of type `K`.
#[derive(Debug, Clone)]
pub enum Header<K> {
    Hello(Hello),
    KeepAlive,
    SubnetDistance(SubnetDistance<K>),
    DeclareType(DeclareType<K>),
    TransmitMessage(TransmitMessage<K>),
}

/// An encoded header longer than a header frame.
#[derive(Debug, Clone, Copy, PartialEq, Eq, Structural)]
pub struct FrameOverflow;

/// An encoding in a fixed-size frame: the encoding, then zeroes up to `size`
/// bytes.
pub open spec fn spec_padded(encoded: Seq<u8>, size: nat) -> Seq<u8> {
    encoded + Seq::new((size - encoded.len()) as nat, |i: int| 0u8)
}

/// The frame of an encoded header: the encoding, then zeroes up to
/// `HEADER_FRAME_SIZE` bytes.
pub open spec fn spec_header_frame(encoded: Seq<u8>) -> Seq<u8> {
    spec_padded(encoded, HEADER_FRAME_SIZE as nat)
}

/// Puts an encoding in a frame of `size` bytes; an encoding that does not fit
/// is refused.
pub fn padded(encoded: &Vec<u8>, size: usize) -> (r: Result<Vec<u8>, FrameOverflow>)
    ensures
        r is Ok <==> encoded.len() <= size,
        r matches Ok(f) ==> f@ == spec_padded(encoded@, size as nat) && f.len() == size,
{
    if encoded.len() > size {
        return Err(FrameOverflow);
    }
    let mut f: Vec<u8> = Vec::new();
    let mut i: usize = 0;
    while i < encoded.len()
        invariant
            0 <= i <= encoded.len() <= size,
            f@ == encoded@.take(i as int),
        decreases encoded.len() - i,
    {
        f.push(encoded[i]);
        i = i + 1;
        assert(f@ =~= encoded@.take(i as int));
    }
    while i < size
        invariant
            encoded.len() <= i <= size,
            f@ == encoded@ + Seq::new((i - encoded.len()) as nat, |j: int| 0u8),
        decreases size - i,
    {
        f.push(0u8);
        i = i + 1;
        assert(f@ =~= encoded@ + Seq::new((i - encoded.len()) as nat, |j: int| 0u8));
    }
    Ok(f)
}

/// Puts an encoded header in its frame; an encoding that does not fit is
/// refused.
pub fn header_frame(encoded: &Vec<u8>) -> (r: Result<Vec<u8>, FrameOverflow>)
    ensures
        r is Ok <==> encoded.len() <= HEADER_FRAME_SIZE,
        r matches Ok(f) ==> f@ == spec_header_frame(encoded@) && f.len() == HEADER_FRAME_SIZE,
{
    padded(encoded, HEADER_FRAME_SIZE)
}

/// The number of bytes that follow a header.
pub open spec fn spec_body_len<K>(h: Header<K>) -> nat {
    match h {
        Header::DeclareType(d) => d.type_name_len as nat,
        Header::TransmitMessage(t) => t.payload_size as nat,
        _ => 0,
    }
}

/// The number of bytes that follow a header.
pub fn body_len<K>(h: &Header<K>) -> (r: usize)
    ensures
        r == spec_body_len(*h),
        h matches Header::DeclareType(d) ==> r == d.type_name_len,
        h matches Header::TransmitMessage(t) ==> r == t.payload_size,
        !(h is DeclareType) && !(h is TransmitMessage) ==> r == 0,
{
    match h {
        Header::DeclareType(d) => d.type_name_len as usize,
        Header::TransmitMessage(t) => t.payload_size as usize,
        _ => 0,
    }
}

/// What a header read from the peer, with its body, tells the connection.
#[derive(Debug, Clone)]
pub enum Inbound {
    DeclareType { foreign_type_key: ForeignTypeKey, name: String },
    SubnetDistance { net_address: NetAddress, type_handle: ForeignTypeKey, metric: Option<u8> },
    ReceivedMessage {
        dst_address: Address,
        trace_id: u64,
        origin_seq_no: u64,
        ttl: u8,
        priority: bool,
        foreign_type_key: ForeignTypeKey,
        body: Vec<u8>,
    },
}

/// Why the read side of a connection gives up.
#[derive(Debug, Clone, Copy, PartialEq, Eq, Structural)]
pub enum ReadError {
    /// A hello after the handshake.
    UnexpectedHello,
    /// A declared type name that is not UTF-8.
    NonUtf8Name,
}

/// `String::from_utf8`: the bytes as text, where they are valid UTF-8.
#[verifier::external_body]
fn utf8_text(bytes: Vec<u8>) -> (r: Option<String>)
    ensures
        r is Some <==> valid_utf8(bytes@),
        r matches Some(s) ==> s@ == decode_utf8(bytes@),
{
    String::from_utf8(bytes).ok()
}

/// What a header and its body tell the connection: nothing for a keep-alive,
/// and an error for a hello or a name that is not UTF-8.
pub fn read_frame(header: Header<ForeignTypeKey>, body: Vec<u8>) -> (r: Result<Option<Inbound>, ReadError>)
    requires
        body.len() == spec_body_len(header),
    ensures
        header is Hello <==> r == Err::<Option<Inbound>, ReadError>(ReadError::UnexpectedHello),
        header is KeepAlive <==> r matches Ok(None),
        header matches Header::DeclareType(d) ==> (if valid_utf8(body@) {
            r matches Ok(Some(Inbound::DeclareType { foreign_type_key, name }))
                && foreign_type_key == d.message_type && name@ == decode_utf8(body@)
        } else {
            r == Err::<Option<Inbound>, ReadError>(ReadError::NonUtf8Name)
        }),
        header matches Header::SubnetDistance(s) ==> r == Ok::<_, ReadError>(Some(Inbound::SubnetDistance {
            net_address: s.net_address,
            type_handle: s.type_handle,
            metric: s.metric,
        })),
        header matches Header::TransmitMessage(t) ==> (r matches Ok(Some(Inbound::ReceivedMessage {
            dst_address, trace_id, origin_seq_no, ttl, priority, foreign_type_key, body: b,
        })) && dst_address == t.dst_address && trace_id == t.trace_id && origin_seq_no == t.origin_seq_no
            && ttl == t.ttl && priority == t.priority && foreign_type_key == t.message_type && b@ == body@),
{
    match header {
        Header::Hello(_) => Err(ReadError::UnexpectedHello),
        Header::KeepAlive => Ok(None),
        Header::DeclareType(d) => match utf8_text(body) {
            Some(name) => Ok(Some(Inbound::DeclareType { foreign_type_key: d.message_type, name })),
            None => Err(ReadError::NonUtf8Name),
        },
        Header::SubnetDistance(s) => Ok(Some(Inbound::SubnetDistance {
            net_address: s.net_address,
            type_handle: s.type_handle,
            metric: s.metric,
        })),
        Header::TransmitMessage(t) => Ok(Some(Inbound::ReceivedMessage {
            dst_address: t.dst_address,
            trace_id: t.trace_id,
            origin_seq_no: t.origin_seq_no,
            ttl: t.ttl,
            priority: t.priority,
            foreign_type_key: t.message_type,
            body,
        })),
    }
}

/// The number of bytes of a name in UTF-8.
pub open spec fn name_len(name: Seq<char>) -> nat {
    encode_utf8(name).len()
}

/// The length of a name in UTF-8, in bytes.
pub fn utf8_len(name: &String) -> (r: usize)
    ensures
        r == name_len(name@),
{
    name.as_str().as_bytes().len()
}

/// Only a type declaration and a transmitted message carry a body: a
/// declaration is followed by its name, a message by its payload, each of the
/// length the header gives, and every other header (a hello, a keep-alive, a
/// route change) by nothing, so the next header follows it at once.
pub proof fn law_only_declarations_and_messages_carry_a_body<K>(h: Header<K>)
    ensures
        h matches Header::DeclareType(d) ==> spec_body_len(h) == d.type_name_len,
        h matches Header::TransmitMessage(t) ==> spec_body_len(h) == t.payload_size,
        !(h is DeclareType) && !(h is TransmitMessage) ==> spec_body_len(h) == 0,
        spec_body_len(h) <= MAX_BODY_LEN,
{
}

/// A header frame gives its encoding back: the frame is `HEADER_FRAME_SIZE`
/// bytes and starts with the encoding, whatever its length up to that size.
pub proof fn law_header_frame_keeps_encoding(encoded: Seq<u8>)
    requires
        encoded.len() <= HEADER_FRAME_SIZE,
    ensures
        spec_header_frame(encoded).len() == HEADER_FRAME_SIZE,
        spec_header_frame(encoded).subrange(0, encoded.len() as int) == encoded,
{
    assert(spec_header_frame(encoded).subrange(0, encoded.len() as int) =~= encoded);
}

/// A declared name reads back as itself: its bytes in UTF-8 are as many as a
/// declaration announces, they are valid UTF-8, and they decode to the name.
pub proof fn law_declared_name_reads_back(name: Seq<char>)
    ensures
        encode_utf8(name).len() == name_len(name),
        valid_utf8(encode_utf8(name)),
        decode_utf8(encode_utf8(name)) == name,
{
    vstd::utf8::encode_utf8_valid_utf8(name);
    vstd::utf8::encode_utf8_decode_utf8(name);
}

} // verus!
