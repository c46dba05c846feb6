//! The hello of a connection between nodes: both ends send a 30-byte hello
//! (the magic "MM1!", their encoded capabilities, zeros), then authenticate
//! the way both of them name, then agree that they are done.
//!
//! The capabilities and the negotiation messages are encoded by bincode
//! outside this module; here the frames are laid out and checked.

use vstd::prelude::*;

use crate::pdu::{padded, spec_padded, FrameOverflow};

verus! {

/// The length of a hello frame.
pub const HELLO_FRAME_LEN: usize = 30;

/// The magic at the start of a hello: "MM1!".
pub open spec fn hello_magic_spec() -> Seq<u8> {
    seq![77u8, 77u8, 49u8, 33u8]
}

/// How a node authenticates its peers.
#[derive(Debug, Clone, Copy, PartialEq, Eq, Structural)]
pub enum CapAuthc {
    Trusted,
    Cookie,
    SharedSecret,
}

impl Default for CapAuthc {
    fn default() -> (r: Self)
        ensures
            r == CapAuthc::Trusted,
    {
        CapAuthc::Trusted
    }
}

/// The authentication a connection is configured with, with its secrets (the
/// bytes of their text).
#[derive(Debug, Clone, PartialEq, Eq)]
pub enum AuthcConfig {
    Trusted,
    Cookie(Vec<u8>),
    SharedSecret(Vec<u8>),
}

/// The capabilities that a configuration announces: its authentication
/// method.
pub fn capabilities(config: &AuthcConfig) -> (r: CapAuthc)
    ensures
        r == match config {
            AuthcConfig::Trusted => CapAuthc::Trusted,
            AuthcConfig::Cookie(_) => CapAuthc::Cookie,
            AuthcConfig::SharedSecret(_) => CapAuthc::SharedSecret,
        },
{
    match config {
        AuthcConfig::Trusted => CapAuthc::Trusted,
        AuthcConfig::Cookie(_) => CapAuthc::Cookie,
        AuthcConfig::SharedSecret(_) => CapAuthc::SharedSecret,
    }
}

/// The hello could not be made or was refused.
#[derive(Debug, Clone, Copy, PartialEq, Eq, Structural)]
pub enum HelloError {
    /// The encoded capabilities do not fit in the hello.
    CapabilitiesTooLong,
    /// The peer's hello does not start with the magic.
    BadMagic,
    /// Bytes after the peer's capabilities are not zero: the peer has
    /// another idea of the capabilities.
    StrayData,
}

/// The hello frame: the magic, the encoded capabilities, zeros.
pub open spec fn hello_frame_spec(caps: Seq<u8>) -> Seq<u8> {
    hello_magic_spec() + caps + Seq::new((HELLO_FRAME_LEN - 4 - caps.len()) as nat, |i: int| 0u8)
}

/// Lays out this end's hello around its encoded capabilities.
pub fn hello_frame(encoded_caps: &Vec<u8>) -> (r: Result<Vec<u8>, HelloError>)
    ensures
        encoded_caps.len() <= HELLO_FRAME_LEN - 4 ==> (r matches Ok(f) && f@ == hello_frame_spec(encoded_caps@)),
        encoded_caps.len() > HELLO_FRAME_LEN - 4 ==> r == Err::<Vec<u8>, _>(HelloError::CapabilitiesTooLong),
{
    if encoded_caps.len() > HELLO_FRAME_LEN - 4 {
        return Err(HelloError::CapabilitiesTooLong);
    }
    let mut f: Vec<u8> = vec![77u8, 77u8, 49u8, 33u8];
    let mut i: usize = 0;
    while i < encoded_caps.len()
        invariant
            0 <= i <= encoded_caps.len(),
            f@ == hello_magic_spec() + encoded_caps@.take(i as int),
        decreases encoded_caps.len() - i,
    {
        f.push(encoded_caps[i]);
        proof {
            assert(encoded_caps@.take(i + 1) =~= encoded_caps@.take(i as int).push(encoded_caps@[i as int]));
        }
        i = i + 1;
    }
    proof {
        assert(encoded_caps@.take(encoded_caps.len() as int) =~= encoded_caps@);
    }
    let ghost prefix = f@;
    while f.len() < HELLO_FRAME_LEN
        invariant
            prefix.len() <= f.len() <= HELLO_FRAME_LEN,
            f@.subrange(0, prefix.len() as int) == prefix,
            forall|j: int| prefix.len() <= j < f.len() ==> f@[j] == 0u8,
        decreases HELLO_FRAME_LEN - f.len(),
    {
        f.push(0u8);
    }
    proof {
        assert(f@ =~= hello_frame_spec(encoded_caps@));
    }
    Ok(f)
}

/// Checks the magic of the peer's hello and returns the bytes after it, where
/// the peer's capabilities are encoded.
pub fn hello_payload(frame: &Vec<u8>) -> (r: Result<Vec<u8>, HelloError>)
    requires
        frame.len() == HELLO_FRAME_LEN,
    ensures
        r is Ok <==> frame@.subrange(0, 4) == hello_magic_spec(),
        r matches Ok(p) ==> p@ == frame@.subrange(4, HELLO_FRAME_LEN as int),
{
    if frame[0] != 77u8 || frame[1] != 77u8 || frame[2] != 49u8 || frame[3] != 33u8 {
        proof {
            if frame@.subrange(0, 4) == hello_magic_spec() {
                assert(frame@.subrange(0, 4)[0] == frame@[0]);
                assert(frame@.subrange(0, 4)[1] == frame@[1]);
                assert(frame@.subrange(0, 4)[2] == frame@[2]);
                assert(frame@.subrange(0, 4)[3] == frame@[3]);
            }
        }
        return Err(HelloError::BadMagic);
    }
    assert(frame@.subrange(0, 4) =~= hello_magic_spec());
    let mut p: Vec<u8> = Vec::new();
    let mut i: usize = 4;
    while i < frame.len()
        invariant
            4 <= i <= frame.len(),
            frame.len() == HELLO_FRAME_LEN,
            p@ == frame@.subrange(4, i as int),
        decreases frame.len() - i,
    {
        p.push(frame[i]);
        proof {
            assert(frame@.subrange(4, i + 1) =~= frame@.subrange(4, i as int).push(frame@[i as int]));
        }
        i = i + 1;
    }
    Ok(p)
}

/// After the peer's capabilities, which took `consumed` bytes of the payload,
/// only zeros may follow.
pub fn check_padding(payload: &Vec<u8>, consumed: usize) -> (r: Result<(), HelloError>)
    requires
        consumed <= payload.len(),
    ensures
        r is Ok <==> forall|j: int| consumed <= j < payload.len() ==> payload@[j] == 0u8,
        r is Err ==> r == Err::<(), _>(HelloError::StrayData),
{
    let mut i: usize = consumed;
    while i < payload.len()
        invariant
            consumed <= i <= payload.len(),
            forall|j: int| consumed <= j < i ==> payload@[j] == 0u8,
        decreases payload.len() - i,
    {
        if payload[i] != 0u8 {
            return Err(HelloError::StrayData);
        }
        i = i + 1;
    }
    Ok(())
}

/// A message of the authentication negotiation.
#[derive(Debug, Clone, Copy, PartialEq, Eq, Structural)]
pub enum Negotiate {
    /// A cookie of this many bytes follows.
    Cookie(u16),
    Done,
}

/// Why the authentication failed.
#[derive(Debug, Clone, Copy, PartialEq, Eq, Structural)]
pub enum AuthcError {
    /// The two ends name different methods.
    IncompatibleAuthc { local: CapAuthc, peer: CapAuthc },
    /// The cookie is longer than a negotiation message can announce.
    CookieTooLong,
    /// The peer sent something else than its cookie.
    ExpectedCookie,
    /// The peer's cookie is not ours.
    CookieMismatch,
    /// Shared-secret authentication is not implemented on connections.
    SharedSecretNotImplemented,
    /// The peer sent something else than `Done`.
    ExpectedDone,
}

/// What the authentication does once both ends named the same method.
#[derive(Debug, Clone, PartialEq, Eq)]
pub enum AuthcPlan {
    /// Nothing: the peer is trusted.
    Trusted,
    /// Send our cookie's length, then the cookie, and check the peer's.
    Cookie { announce: Negotiate, cookie: Vec<u8> },
}

/// The authentication of a connection configured with `config`, where this
/// end announced `local` and the peer `peer`.
pub fn authc_plan(config: &AuthcConfig, local: CapAuthc, peer: CapAuthc) -> (r: Result<AuthcPlan, AuthcError>)
    ensures
        local != peer ==> r == Err::<AuthcPlan, _>(AuthcError::IncompatibleAuthc { local, peer }),
        local == peer ==> match config {
            AuthcConfig::Trusted => r == Ok::<_, AuthcError>(AuthcPlan::Trusted),
            AuthcConfig::Cookie(c) => if c@.len() <= u16::MAX {
                (r matches Ok(AuthcPlan::Cookie { announce, cookie }) && announce == Negotiate::Cookie(c@.len() as u16)
                    && cookie@ == c@)
            } else {
                r == Err::<AuthcPlan, _>(AuthcError::CookieTooLong)
            },
            AuthcConfig::SharedSecret(_) => r == Err::<AuthcPlan, _>(AuthcError::SharedSecretNotImplemented),
        },
{
    if local != peer {
        return Err(AuthcError::IncompatibleAuthc { local, peer });
    }
    match config {
        AuthcConfig::Trusted => Ok(AuthcPlan::Trusted),
        AuthcConfig::Cookie(c) => {
            if c.len() > 65535 {
                return Err(AuthcError::CookieTooLong);
            }
            let cookie = vstd::slice::slice_to_vec(c.as_slice());
            Ok(AuthcPlan::Cookie { announce: Negotiate::Cookie(c.len() as u16), cookie })
        },
        AuthcConfig::SharedSecret(_) => Err(AuthcError::SharedSecretNotImplemented),
    }
}

/// The length of the frame of an encoded negotiation message.
pub const NEGOTIATE_FRAME_LEN: usize = 8;

/// Puts an encoded negotiation message in its frame, padded with zeroes.
pub fn negotiate_frame(encoded: &Vec<u8>) -> (r: Result<Vec<u8>, FrameOverflow>)
    ensures
        r is Ok <==> encoded.len() <= NEGOTIATE_FRAME_LEN,
        r matches Ok(f) ==> f@ == spec_padded(encoded@, NEGOTIATE_FRAME_LEN as nat),
{
    padded(encoded, NEGOTIATE_FRAME_LEN)
}

/// The peer's announcement of its cookie: the number of bytes to read.
pub fn peer_cookie_len(n: Negotiate) -> (r: Result<u16, AuthcError>)
    ensures
        n matches Negotiate::Cookie(len) ==> r == Ok::<u16, AuthcError>(len),
        n is Done ==> r == Err::<u16, _>(AuthcError::ExpectedCookie),
{
    match n {
        Negotiate::Cookie(len) => Ok(len),
        Negotiate::Done => Err(AuthcError::ExpectedCookie),
    }
}

/// The peer's cookie must be ours.
pub fn check_cookie(ours: &Vec<u8>, received: &Vec<u8>) -> (r: Result<(), AuthcError>)
    ensures
        r is Ok <==> ours@ == received@,
        r is Err ==> r == Err::<(), _>(AuthcError::CookieMismatch),
{
    if ours.len() != received.len() {
        return Err(AuthcError::CookieMismatch);
    }
    let mut i: usize = 0;
    while i < ours.len()
        invariant
            0 <= i <= ours.len(),
            ours.len() == received.len(),
            forall|j: int| 0 <= j < i ==> ours@[j] == received@[j],
        decreases ours.len() - i,
    {
        if ours[i] != received[i] {
            return Err(AuthcError::CookieMismatch);
        }
        i = i + 1;
    }
    assert(ours@ =~= received@);
    Ok(())
}

/// The negotiation ends when the peer says `Done`.
pub fn check_done(n: Negotiate) -> (r: Result<(), AuthcError>)
    ensures
        r is Ok <==> n is Done,
        r is Err ==> r == Err::<(), _>(AuthcError::ExpectedDone),
{
    match n {
        Negotiate::Done => Ok(()),
        Negotiate::Cookie(_) => Err(AuthcError::ExpectedDone),
    }
}


/// A hello laid out by one end passes the other end's checks: the magic is
/// there, the payload is the encoded capabilities followed by zeros, and
/// nothing but zeros follows the capabilities.
pub proof fn law_hello_round_trip(caps: Seq<u8>)
    requires
        caps.len() <= HELLO_FRAME_LEN - 4,
    ensures
        hello_frame_spec(caps).len() == HELLO_FRAME_LEN,
        hello_frame_spec(caps).subrange(0, 4) == hello_magic_spec(),
        hello_frame_spec(caps).subrange(4, HELLO_FRAME_LEN as int).subrange(0, caps.len() as int) == caps,
        forall|j: int| caps.len() <= j < HELLO_FRAME_LEN - 4 ==> #[trigger] hello_frame_spec(caps).subrange(
            4,
            HELLO_FRAME_LEN as int,
        )[j] == 0u8,
{
    let f = hello_frame_spec(caps);
    assert(f.subrange(0, 4) =~= hello_magic_spec());
    assert(f.subrange(4, HELLO_FRAME_LEN as int).subrange(0, caps.len() as int) =~= caps);
}

} // verus!
