//! A link to a remote subnet: the handshake (protocol magic, shared-secret
//! authentication, capabilities) and what becomes of each message that
//! crosses the link.

use rand::rngs::OsRng;
use rand::TryRngCore;
use sha3::{Digest, Sha3_256};
use vstd::prelude::*;

use crate::address::{Address, NetAddress};
use crate::codec::TypeTag;
use crate::codecs::{Codec, SerdeFormat};

verus! {

/// The length of each half of an authentication challenge.
pub const CHALLENGE_HALF_SIZE: usize = 32;

/// The length of an authentication challenge.
pub const CHALLENGE_SIZE: usize = 64;

/// The longest frame on a link.
pub const MAX_FRAME_LEN: usize = 65536;

/// The bytes that both ends of a link send first, and again after the
/// authentication: "MM1-WIP".
pub open spec fn protocol_magic_spec() -> Seq<u8> {
    seq![77u8, 77u8, 49u8, 45u8, 87u8, 73u8, 80u8]
}

/// The protocol magic.
pub fn protocol_magic() -> (r: Vec<u8>)
    ensures
        r@ == protocol_magic_spec(),
{
    let r = vec![77u8, 77u8, 49u8, 45u8, 87u8, 73u8, 80u8];
    assert(r@ =~= protocol_magic_spec());
    r
}

/// The peer sent other bytes than the protocol magic.
#[derive(Debug, Clone, Copy, PartialEq, Eq, Structural)]
pub struct BadMagic;

/// Checks the bytes that the peer sent first.
pub fn check_magic(received: &Vec<u8>) -> (r: Result<(), BadMagic>)
    ensures
        r is Ok <==> received@ == protocol_magic_spec(),
{
    let magic = protocol_magic();
    if received.len() != magic.len() {
        return Err(BadMagic);
    }
    let mut i: usize = 0;
    while i < magic.len()
        invariant
            0 <= i <= magic.len(),
            magic@ == protocol_magic_spec(),
            received.len() == magic.len(),
            forall|j: int| 0 <= j < i ==> received@[j] == magic@[j],
        decreases magic.len() - i,
    {
        if received[i] != magic[i] {
            return Err(BadMagic);
        }
        i = i + 1;
    }
    assert(received@ =~= protocol_magic_spec());
    Ok(())
}

/// Names the SHA3-256 digest of three byte strings fed in turn.
pub uninterp spec fn sha3_256_parts(a: Seq<u8>, b: Seq<u8>, c: Seq<u8>) -> Seq<u8>;

/// `Sha3_256`: `new`, `update` with each part in turn, `finalize`. The digest
/// is 32 bytes and depends on the parts alone.
#[verifier::external_body]
fn sha3_256_of(a: &[u8], b: &[u8], c: &[u8]) -> (r: Vec<u8>)
    ensures
        r@ == sha3_256_parts(a@, b@, c@),
        r@.len() == 32,
{
    let mut hasher = Sha3_256::new();
    hasher.update(a);
    hasher.update(b);
    hasher.update(c);
    hasher.finalize().to_vec()
}

/// `OsRng::try_fill_bytes`: fills the buffer with random bytes from the
/// operating system's generator, or fails with its error. The buffer keeps its
/// length; nothing is known of the bytes.
#[verifier::external_body]
fn os_fill_random(buf: &mut Vec<u8>) -> (r: Result<(), ()>)
    ensures
        final(buf)@.len() == old(buf)@.len(),
{
    match OsRng.try_fill_bytes(buf) {
        Ok(()) => Ok(()),
        Err(_) => Err(()),
    }
}

/// A fresh challenge for the shared-secret authentication: `CHALLENGE_SIZE`
/// random bytes, or an error where the operating system's generator fails.
pub fn fresh_challenge() -> (r: Result<Vec<u8>, ()>)
    ensures
        r matches Ok(c) ==> c@.len() == CHALLENGE_SIZE,
{
    let mut challenge: Vec<u8> = Vec::new();
    let mut i: usize = 0;
    while i < CHALLENGE_SIZE
        invariant
            0 <= i <= CHALLENGE_SIZE,
            challenge@.len() == i,
        decreases CHALLENGE_SIZE - i,
    {
        challenge.push(0u8);
        i = i + 1;
    }
    match os_fill_random(&mut challenge) {
        Ok(()) => Ok(challenge),
        Err(()) => Err(()),
    }
}

/// The response that proves the secret to the peer: the digest of the first
/// half of one's own challenge, the second half of the peer's, and the secret.
pub open spec fn authc_response(own: Seq<u8>, peer: Seq<u8>, secret: Seq<u8>) -> Seq<u8> {
    sha3_256_parts(own.subrange(0, 32), peer.subrange(32, 64), secret)
}

/// The response expected from the peer: the digest of the first half of the
/// peer's challenge, the second half of one's own, and the secret.
pub open spec fn expected_peer_response(own: Seq<u8>, peer: Seq<u8>, secret: Seq<u8>) -> Seq<u8> {
    sha3_256_parts(peer.subrange(0, 32), own.subrange(32, 64), secret)
}

/// The two digests of the shared-secret authentication: the response to
/// send, and the response expected from the peer.
pub fn authc_digests(own_challenge: &Vec<u8>, peer_challenge: &Vec<u8>, secret: &Vec<u8>) -> (r: (Vec<u8>, Vec<u8>))
    requires
        own_challenge@.len() == CHALLENGE_SIZE,
        peer_challenge@.len() == CHALLENGE_SIZE,
    ensures
        r.0@ == authc_response(own_challenge@, peer_challenge@, secret@),
        r.1@ == expected_peer_response(own_challenge@, peer_challenge@, secret@),
{
    let own = own_challenge.as_slice();
    let peer = peer_challenge.as_slice();
    let ours = sha3_256_of(vstd::slice::slice_subrange(own, 0, CHALLENGE_HALF_SIZE), vstd::slice::slice_subrange(peer, CHALLENGE_HALF_SIZE, CHALLENGE_SIZE), secret.as_slice());
    let theirs = sha3_256_of(vstd::slice::slice_subrange(peer, 0, CHALLENGE_HALF_SIZE), vstd::slice::slice_subrange(own, CHALLENGE_HALF_SIZE, CHALLENGE_SIZE), secret.as_slice());
    (ours, theirs)
}

/// The peer's response did not match.
#[derive(Debug, Clone, Copy, PartialEq, Eq, Structural)]
pub struct AuthcFailure;

/// Checks the peer's response against the expected one.
pub fn check_peer_response(expected: &Vec<u8>, actual: &Vec<u8>) -> (r: Result<(), AuthcFailure>)
    ensures
        r is Ok <==> expected@ == actual@,
{
    if expected.len() != actual.len() {
        return Err(AuthcFailure);
    }
    let mut i: usize = 0;
    while i < expected.len()
        invariant
            0 <= i <= expected.len(),
            expected.len() == actual.len(),
            forall|j: int| 0 <= j < i ==> expected@[j] == actual@[j],
        decreases expected.len() - i,
    {
        if expected[i] != actual[i] {
            return Err(AuthcFailure);
        }
        i = i + 1;
    }
    assert(expected@ =~= actual@);
    Ok(())
}

/// What the peer asks for in the handshake.
#[derive(Debug, Clone, PartialEq, Eq)]
pub struct RequestedCapabilities {
    pub requested_subnet: NetAddress,
    pub requested_format: Option<SerdeFormat>,
    pub requested_types: Vec<String>,
}

/// What this end offers in the handshake: its message types with their
/// names.
pub struct AdvertisedCapabilities {
    pub advertised_types: Vec<(TypeTag, String)>,
}

/// One packet of the capability negotiation.
#[derive(Debug, Clone, PartialEq, Eq)]
pub enum Packet {
    NetAddress(NetAddress),
    SerdeFormat(SerdeFormat),
    Type(String),
    Done,
}

impl RequestedCapabilities {
    /// Nothing requested yet: the whole address space, no format, no types.
    pub fn new() -> (r: Self)
        ensures
            r.requested_subnet == (NetAddress { address: Address(0), mask: crate::address::NetMask(0) }),
            r.requested_format is None,
            r.requested_types@.len() == 0,
    {
        RequestedCapabilities {
            requested_subnet: NetAddress { address: Address(0), mask: crate::address::NetMask(0) },
            requested_format: None,
            requested_types: Vec::new(),
        }
    }

    /// Takes in one packet of the peer's; `true` once it is `Done`. A subnet
    /// or a format replaces the one before; a type is added.
    pub fn receive(&mut self, packet: Packet) -> (done: bool)
        ensures
            done <==> packet is Done,
            match packet {
                Packet::Done => *final(self) == *old(self),
                Packet::NetAddress(a) => final(self).requested_subnet == a
                    && final(self).requested_format == old(self).requested_format
                    && final(self).requested_types@ == old(self).requested_types@,
                Packet::SerdeFormat(f) => final(self).requested_format == Some(f)
                    && final(self).requested_subnet == old(self).requested_subnet
                    && final(self).requested_types@ == old(self).requested_types@,
                Packet::Type(t) => final(self).requested_types@ == old(self).requested_types@.push(t)
                    && final(self).requested_subnet == old(self).requested_subnet
                    && final(self).requested_format == old(self).requested_format,
            },
    {
        match packet {
            Packet::Done => true,
            Packet::NetAddress(a) => {
                self.requested_subnet = a;
                false
            },
            Packet::SerdeFormat(f) => {
                self.requested_format = Some(f);
                false
            },
            Packet::Type(t) => {
                self.requested_types.push(t);
                false
            },
        }
    }
}

/// The peer requested a type that the codec does not support.
#[derive(Debug, Clone, Copy, PartialEq, Eq, Structural)]
pub struct UnsupportedType;

/// Every type the peer requested must be one the codec supports.
pub fn check_requested_types(codec: &Codec, caps: &RequestedCapabilities) -> (r: Result<(), UnsupportedType>)
    requires
        codec.wf(),
    ensures
        r is Ok <==> forall|i: int| 0 <= i < caps.requested_types@.len() ==> codec@.contains_key(
            #[trigger] caps.requested_types@[i]@,
        ),
{
    let mut all_supported = true;
    let mut i: usize = 0;
    while i < caps.requested_types.len()
        invariant
            0 <= i <= caps.requested_types.len(),
            codec.wf(),
            all_supported <==> forall|j: int| 0 <= j < i ==> codec@.contains_key(#[trigger] caps.requested_types@[j]@),
        decreases caps.requested_types.len() - i,
    {
        if codec.select_type(caps.requested_types[i].as_str()).is_none() {
            all_supported = false;
        }
        i = i + 1;
    }
    if all_supported {
        Ok(())
    } else {
        Err(UnsupportedType)
    }
}

/// The packets this end sends in the capability negotiation: the subnet it
/// requests, its format, each of its types, and `Done`.
pub fn capability_packets(request_subnet: NetAddress, serde_format: SerdeFormat, advertised: &AdvertisedCapabilities) -> (r: Vec<Packet>)
    ensures
        r.len() == advertised.advertised_types.len() + 3,
        r@[0] == Packet::NetAddress(request_subnet),
        r@[1] == Packet::SerdeFormat(serde_format),
        forall|i: int| 0 <= i < advertised.advertised_types.len() ==> ((#[trigger] r@[i + 2]) matches Packet::Type(t)
            && t@ == advertised.advertised_types@[i].1@),
        r@[r.len() - 1] == Packet::Done,
{
    let mut r: Vec<Packet> = Vec::new();
    r.push(Packet::NetAddress(request_subnet));
    r.push(Packet::SerdeFormat(serde_format));
    let mut i: usize = 0;
    while i < advertised.advertised_types.len()
        invariant
            0 <= i <= advertised.advertised_types.len(),
            r.len() == i + 2,
            r@[0] == Packet::NetAddress(request_subnet),
            r@[1] == Packet::SerdeFormat(serde_format),
            forall|j: int| 0 <= j < i ==> ((#[trigger] r@[j + 2]) matches Packet::Type(t) && t@ == advertised.advertised_types@[j].1@),
        decreases advertised.advertised_types.len() - i,
    {
        r.push(Packet::Type(advertised.advertised_types[i].1.clone()));
        i = i + 1;
    }
    r.push(Packet::Done);
    r
}

/// Why a handshake's outcome was refused.
#[derive(Debug, Clone, Copy, PartialEq, Eq, Structural)]
pub enum FormatError {
    /// The peer requested no format.
    NoFormatRequested,
    /// The peer requested another format.
    FormatMismatch,
}

/// Both ends must use the configured format.
pub fn agree_format(configured: SerdeFormat, caps: &RequestedCapabilities) -> (r: Result<(), FormatError>)
    ensures
        caps.requested_format is None ==> r == Err::<(), _>(FormatError::NoFormatRequested),
        caps.requested_format matches Some(f) ==> if f == configured {
            r is Ok
        } else {
            r == Err::<(), _>(FormatError::FormatMismatch)
        },
{
    match caps.requested_format {
        None => Err(FormatError::NoFormatRequested),
        Some(f) => if f == configured {
            Ok(())
        } else {
            Err(FormatError::FormatMismatch)
        },
    }
}

/// The position of each advertised type, by its Rust type: a message of
/// that type is sent with this position as its type index. A type advertised
/// twice keeps its last position.
pub fn encoder_indices(advertised: &AdvertisedCapabilities) -> (r: Vec<(TypeTag, usize)>)
    ensures
        r.len() == advertised.advertised_types.len(),
        forall|i: int| 0 <= i < r.len() ==> (#[trigger] r@[i]) == (advertised.advertised_types@[i].0, i as usize),
{
    let mut r: Vec<(TypeTag, usize)> = Vec::new();
    let mut i: usize = 0;
    while i < advertised.advertised_types.len()
        invariant
            0 <= i <= advertised.advertised_types.len(),
            r.len() == i,
            forall|j: int| 0 <= j < i ==> (#[trigger] r@[j]) == (advertised.advertised_types@[j].0, j as usize),
        decreases advertised.advertised_types.len() - i,
    {
        r.push((advertised.advertised_types[i].0, i));
        i = i + 1;
    }
    r
}

/// The last position of the type `t` among `s`.
pub open spec fn last_index_of(s: Seq<(TypeTag, usize)>, t: TypeTag) -> Option<usize>
    decreases s.len(),
{
    if s.len() == 0 {
        None
    } else if s.last().0 == t {
        Some(s.last().1)
    } else {
        last_index_of(s.drop_last(), t)
    }
}

/// The header of a message sent on the link.
#[derive(Debug, Clone, Copy, PartialEq, Eq, Structural)]
pub struct Header {
    pub to: Address,
    pub ttl: usize,
    pub type_idx: usize,
}

/// Why an outbound message was dropped.
#[derive(Debug, Clone, Copy, PartialEq, Eq, Structural)]
pub enum OutboundDrop {
    /// Its time to live ran out.
    OutOfTtl,
    /// The peer does not take its type.
    UnsupportedMessage,
}

/// The header of a message for `to` of Rust type `tid` with `ttl` hops left:
/// one hop fewer, and the type's index on the link.
pub fn outbound_header(encoders: &Vec<(TypeTag, usize)>, to: Address, tid: TypeTag, ttl: usize) -> (r: Result<Header, OutboundDrop>)
    ensures
        ttl == 0 ==> r == Err::<Header, _>(OutboundDrop::OutOfTtl),
        ttl > 0 && last_index_of(encoders@, tid) is None ==> r == Err::<Header, _>(OutboundDrop::UnsupportedMessage),
        ttl > 0 && last_index_of(encoders@, tid) is Some ==> r == Ok::<_, OutboundDrop>(
            Header { to, ttl: (ttl - 1) as usize, type_idx: last_index_of(encoders@, tid)->0 },
        ),
{
    let ttl = match ttl.checked_sub(1) {
        None => {
            return Err(OutboundDrop::OutOfTtl);
        },
        Some(t) => t,
    };
    let mut found: Option<usize> = None;
    let mut i: usize = 0;
    while i < encoders.len()
        invariant
            0 <= i <= encoders.len(),
            found == last_index_of(encoders@.take(i as int), tid),
        decreases encoders.len() - i,
    {
        proof {
            assert(encoders@.take(i + 1).drop_last() =~= encoders@.take(i as int));
        }
        if encoders[i].0 == tid {
            found = Some(encoders[i].1);
        }
        i = i + 1;
    }
    proof {
        assert(encoders@.take(encoders.len() as int) =~= encoders@);
    }
    match found {
        None => Err(OutboundDrop::UnsupportedMessage),
        Some(type_idx) => Ok(Header { to, ttl, type_idx }),
    }
}

/// An encoded message longer than a frame is not sent.
pub fn fits_in_frame(encoded_len: usize) -> (r: bool)
    ensures
        r == (encoded_len <= MAX_FRAME_LEN),
{
    encoded_len <= MAX_FRAME_LEN
}

/// The index, among the types the peer requested, of an inbound message's
/// type; an index past them drops the message.
pub fn inbound_type(requested_types: &Vec<String>, type_idx: usize) -> (r: Option<String>)
    ensures
        type_idx < requested_types.len() ==> (r matches Some(t) && t@ == requested_types@[type_idx as int]@),
        type_idx >= requested_types.len() ==> r is None,
{
    if type_idx < requested_types.len() {
        Some(requested_types[type_idx].clone())
    } else {
        None
    }
}


/// The next wait of a rendez-vous that keeps failing to connect: twice the
/// last one, at most `max` (in milliseconds).
pub fn next_delay_ms(delay: u64, max: u64) -> (r: u64)
    ensures
        r == if 2 * delay <= max { 2 * delay } else { max as int },
{
    match delay.checked_mul(2) {
        Some(d) => if d <= max {
            d
        } else {
            max
        },
        None => max,
    }
}

/// The response one end sends is the response the other end expects: with the
/// challenges swapped, the digests are of the same bytes.
pub proof fn law_shared_secret_responses_agree(a: Seq<u8>, b: Seq<u8>, secret: Seq<u8>)
    ensures
        authc_response(a, b, secret) == expected_peer_response(b, a, secret),
{
}

} // verus!
