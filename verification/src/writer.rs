//! The write side of a connection to a peer node: which frames go out for a
//! route change, a type declaration and a message, and which type keys have
//! been declared to the peer.

use vstd::prelude::*;

use crate::address::Address;
use crate::codec::{codec_views, codecs_wf, CodecView, ErasedCodec, Protocol, TypeTag};
use crate::connection::DeclaredTypes;
use crate::pdu::{name_len, spec_body_len, utf8_len, DeclareType, Header, SubnetDistance, TransmitMessage, MAX_BODY_LEN};
use crate::proto::{Forward, SetRoute};
use crate::type_keys::LocalTypeKey;

verus! {

/// What the envelope of an outgoing message says of it.
#[derive(Debug, Clone, Copy, PartialEq, Eq, Structural)]
pub struct EnvelopeInfo {
    pub to: Address,
    pub trace_id: u64,
    pub origin_seq_no: u64,
    pub ttl: u8,
    pub priority: bool,
}

/// A piece of output: a header, then the name or the payload that follows it.
#[derive(Debug, Clone)]
pub enum Frame {
    Header(Header<LocalTypeKey>),
    TypeName(String),
    Payload(Vec<u8>),
}

/// Why a write is refused.
#[derive(Debug, Clone, Copy, PartialEq, Eq, Structural)]
pub enum WriteError {
    /// The name of this type is longer than a header can announce.
    NameTooLong(LocalTypeKey),
    /// The payload is longer than a header can announce.
    MessageTooLarge,
    /// No outbound codec for this type.
    NoCodec(TypeTag),
    /// The key was declared under another name.
    DeclarationConflict(LocalTypeKey),
}

/// The header that declares `key` as `name`, where the name's length fits.
pub fn declare_type_header(key: LocalTypeKey, name: &String) -> (r: Result<DeclareType<LocalTypeKey>, WriteError>)
    ensures
        r is Ok <==> name_len(name@) <= MAX_BODY_LEN,
        r matches Ok(d) ==> d.message_type == key && d.type_name_len == name_len(name@),
        r matches Err(e) ==> e == WriteError::NameTooLong(key),
{
    let n = utf8_len(name);
    if n > MAX_BODY_LEN {
        return Err(WriteError::NameTooLong(key));
    }
    Ok(DeclareType { message_type: key, type_name_len: n as u16 })
}

/// The header of a message of type `key` whose payload has `payload_len`
/// bytes, where that length fits.
pub fn transmit_header(info: &EnvelopeInfo, key: LocalTypeKey, payload_len: usize) -> (r: Result<
    TransmitMessage<LocalTypeKey>,
    WriteError,
>)
    ensures
        r is Ok <==> payload_len <= MAX_BODY_LEN,
        r matches Ok(t) ==> transmit_fields(t, *info, key, payload_len as nat),
        r matches Err(e) ==> e == WriteError::MessageTooLarge,
{
    if payload_len > MAX_BODY_LEN {
        return Err(WriteError::MessageTooLarge);
    }
    Ok(TransmitMessage {
        dst_address: info.to,
        message_type: key,
        trace_id: info.trace_id,
        origin_seq_no: info.origin_seq_no,
        payload_size: payload_len as u16,
        ttl: info.ttl,
        priority: info.priority,
    })
}

/// The header carries what the envelope says and the payload's length.
pub open spec fn transmit_fields(t: TransmitMessage<LocalTypeKey>, info: EnvelopeInfo, key: LocalTypeKey, len: nat) -> bool {
    &&& t.dst_address == info.to
    &&& t.message_type == key
    &&& t.trace_id == info.trace_id
    &&& t.origin_seq_no == info.origin_seq_no
    &&& t.payload_size == len
    &&& t.ttl == info.ttl
    &&& t.priority == info.priority
}

/// The frames that declare `key` as `name`.
pub open spec fn declare_frames(f: Seq<Frame>, key: LocalTypeKey, name: Seq<char>) -> bool {
    &&& f.len() == 2
    &&& f[0] matches Frame::Header(Header::DeclareType(d)) && d.message_type == key && d.type_name_len == name_len(name)
    &&& f[1] matches Frame::TypeName(n) && n@ == name
}

/// The frames that carry a message of type `key` with the payload `body`.
pub open spec fn transmit_frames(f: Seq<Frame>, info: EnvelopeInfo, key: LocalTypeKey, body: Seq<u8>) -> bool {
    &&& f.len() == 2
    &&& f[0] matches Frame::Header(Header::TransmitMessage(t)) && transmit_fields(t, info, key, body.len())
    &&& f[1] matches Frame::Payload(b) && b@ == body
}

/// `i` is where `tid` first occurs in the list.
pub open spec fn is_first(s: Seq<(TypeTag, LocalTypeKey)>, tid: TypeTag, i: int) -> bool {
    &&& 0 <= i < s.len()
    &&& s[i].0 == tid
    &&& forall|j: int| 0 <= j < i ==> s[j].0 != tid
}

/// The key listed first for `tid`.
pub open spec fn first_key(s: Seq<(TypeTag, LocalTypeKey)>, tid: TypeTag) -> Option<LocalTypeKey> {
    if exists|i: int| #[trigger] is_first(s, tid, i) {
        Some(s[choose|i: int| #[trigger] is_first(s, tid, i)].1)
    } else {
        None
    }
}

/// The protocol holds a codec of this name with a type.
pub open spec fn has_typed_codec(s: Seq<CodecView>, name: Seq<char>) -> bool {
    exists|j: int| 0 <= j < s.len() && #[trigger] s[j].1 == name && s[j].0 is Some
}

/// The type of the codec named `name`.
pub open spec fn codec_type(s: Seq<CodecView>, name: Seq<char>) -> TypeTag {
    s[choose|j: int| 0 <= j < s.len() && #[trigger] s[j].1 == name && s[j].0 is Some].0->0
}

/// The type of each outbound message name with its local key. Every name is
/// one of the protocol's codecs that has a type: the runtime panics on any
/// other.
#[verifier::loop_isolation(false)]
pub fn outbound_by_type_id(protocol: &Protocol, outbound: &Vec<(String, LocalTypeKey)>) -> (r: Vec<(TypeTag, LocalTypeKey)>)
    requires
        codecs_wf(protocol@),
        forall|i: int| 0 <= i < outbound.len() ==> has_typed_codec(protocol@, #[trigger] outbound@[i].0@),
    ensures
        r.len() == outbound.len(),
        forall|i: int| 0 <= i < r.len() ==> (#[trigger] r@[i]).1 == outbound@[i].1
            && r@[i].0 == codec_type(protocol@, outbound@[i].0@),
{
    let codecs = protocol.outbound_types();
    let mut r: Vec<(TypeTag, LocalTypeKey)> = Vec::new();
    let mut i: usize = 0;
    while i < outbound.len()
        invariant
            0 <= i <= outbound.len(),
            codec_views(codecs@) == protocol@,
            codecs_wf(protocol@),
            forall|k: int| 0 <= k < outbound.len() ==> has_typed_codec(protocol@, #[trigger] outbound@[k].0@),
            r.len() == i,
            forall|k: int| 0 <= k < i ==> (#[trigger] r@[k]).1 == outbound@[k].1
                && r@[k].0 == codec_type(protocol@, outbound@[k].0@),
        decreases outbound.len() - i,
    {
        let name = &outbound[i].0;
        let ghost s = protocol@;
        assert(has_typed_codec(s, outbound@[i as int].0@));
        let mut j: usize = 0;
        let mut found: Option<TypeTag> = None;
        while j < codecs.len()
            invariant
                0 <= j <= codecs.len(),
                codec_views(codecs@) == s,
                codecs_wf(s),
                has_typed_codec(s, name@),
                found matches Some(t) ==> t == codec_type(s, name@),
                found is None ==> forall|k: int| 0 <= k < j ==> !(s[k].1 == name@ && s[k].0 is Some),
            decreases codecs.len() - j,
        {
            let c: &ErasedCodec = &codecs[j];
            assert(s[j as int] == c@);
            let cname = c.name();
            if cname == *name {
                match c.tid() {
                    Some(t) => {
                        proof {
                            let w = choose|k: int| 0 <= k < s.len() && #[trigger] s[k].1 == name@ && s[k].0 is Some;
                            assert(w == j) by {
                                if w != j {
                                    assert(s[w].1 != s[j as int].1);
                                }
                            }
                        }
                        found = Some(t);
                        break;
                    },
                    None => {},
                }
            }
            j = j + 1;
        }
        match found {
            Some(t) => {
                r.push((t, outbound[i].1));
            },
            None => {
                proof {
                    let w = choose|k: int| 0 <= k < s.len() && #[trigger] s[k].1 == name@ && s[k].0 is Some;
                    assert(!(s[w].1 == name@ && s[w].0 is Some));
                }
            },
        }
        i = i + 1;
    }
    r
}

/// The write side of a connection: the keys declared to the peer, and the
/// local key of each outbound message type.
pub struct OutputWriter {
    declared: DeclaredTypes,
    outbound: Vec<(TypeTag, LocalTypeKey)>,
}

impl OutputWriter {
    pub closed spec fn wf(&self) -> bool {
        self.declared.wf()
    }

    /// The keys declared to the peer, with their names.
    pub closed spec fn declared_view(&self) -> Map<u64, Seq<char>> {
        self.declared@
    }

    /// The outbound message types with their local keys.
    pub closed spec fn outbound_view(&self) -> Seq<(TypeTag, LocalTypeKey)> {
        self.outbound@
    }

    pub fn new(outbound: Vec<(TypeTag, LocalTypeKey)>) -> (r: Self)
        ensures
            r.wf(),
            r.declared_view() == Map::<u64, Seq<char>>::empty(),
            r.outbound_view() == outbound@,
    {
        OutputWriter { declared: DeclaredTypes::new(), outbound }
    }

    /// Whether the key was declared to the peer.
    pub fn is_declared(&self, key: LocalTypeKey) -> (r: bool)
        requires
            self.wf(),
        ensures
            r == self.declared_view().contains_key(key.0),
    {
        self.declared.is_declared(key)
    }

    /// The local key of an outbound message type.
    #[verifier::loop_isolation(false)]
    pub fn key_of(&self, tid: TypeTag) -> (r: Option<LocalTypeKey>)
        ensures
            r == first_key(self.outbound_view(), tid),
    {
        let s = &self.outbound;
        let mut i: usize = 0;
        while i < s.len()
            invariant
                0 <= i <= s.len(),
                forall|j: int| 0 <= j < i ==> s@[j].0 != tid,
            decreases s.len() - i,
        {
            if s[i].0 == tid {
                proof {
                    assert(is_first(self.outbound@, tid, i as int));
                    let w = choose|k: int| #[trigger] is_first(self.outbound@, tid, k);
                    assert(is_first(self.outbound@, tid, w));
                    assert(w == i) by {
                        if w < i {
                            assert(self.outbound@[w].0 != tid);
                        } else if w > i {
                            assert(self.outbound@[i as int].0 == tid);
                        }
                    }
                    assert(first_key(self.outbound@, tid) == Some(self.outbound@[i as int].1));
                }
                return Some(s[i].1);
            }
            i = i + 1;
        }
        proof {
            assert forall|k: int| !#[trigger] is_first(s@, tid, k) by {
                if is_first(s@, tid, k) {
                    assert(s@[k].0 == tid);
                }
            }
        }
        None
    }

    /// Declares a key not declared yet, where its name's length fits.
    fn declare_new(&mut self, key: LocalTypeKey, name: String) -> (r: Result<Vec<Frame>, WriteError>)
        requires
            old(self).wf(),
            !old(self).declared_view().contains_key(key.0),
        ensures
            final(self).wf(),
            final(self).outbound_view() == old(self).outbound_view(),
            r is Ok <==> name_len(name@) <= MAX_BODY_LEN,
            r matches Ok(f) ==> declare_frames(f@, key, name@)
                && final(self).declared_view() == old(self).declared_view().insert(key.0, name@),
            r matches Err(e) ==> e == WriteError::NameTooLong(key)
                && final(self).declared_view() == old(self).declared_view(),
    {
        let header = match declare_type_header(key, &name) {
            Ok(d) => d,
            Err(e) => {
                return Err(e);
            },
        };
        let ghost nv = name@;
        let mut frames: Vec<Frame> = Vec::new();
        frames.push(Frame::Header(Header::DeclareType(header)));
        frames.push(Frame::TypeName(name.clone()));
        self.declared.record(key, name);
        assert(frames@[1] matches Frame::TypeName(n) && n@ == nv);
        Ok(frames)
    }

    /// Declares `key` as `name`: nothing to write when it was declared so
    /// before, an error when it was declared under another name.
    pub fn declare_type(&mut self, key: LocalTypeKey, name: String) -> (r: Result<Vec<Frame>, WriteError>)
        requires
            old(self).wf(),
        ensures
            final(self).wf(),
            final(self).outbound_view() == old(self).outbound_view(),
            old(self).declared_view().contains_key(key.0) && old(self).declared_view()[key.0] == name@ ==> (r matches Ok(f)
                && f@.len() == 0 && final(self).declared_view() == old(self).declared_view()),
            old(self).declared_view().contains_key(key.0) && old(self).declared_view()[key.0] != name@ ==> r
                == Err::<Vec<Frame>, _>(WriteError::DeclarationConflict(key)) && final(self).declared_view()
                == old(self).declared_view(),
            !old(self).declared_view().contains_key(key.0) ==> (if name_len(name@) <= MAX_BODY_LEN {
                (r matches Ok(f) && declare_frames(f@, key, name@) && final(self).declared_view()
                    == old(self).declared_view().insert(key.0, name@))
            } else {
                r == Err::<Vec<Frame>, _>(WriteError::NameTooLong(key)) && final(self).declared_view()
                    == old(self).declared_view()
            }),
    {
        if self.declared.is_declared(key) {
            match self.declared.declare(key, name) {
                Ok(_) => Ok(Vec::new()),
                Err(_) => Err(WriteError::DeclarationConflict(key)),
            }
        } else {
            self.declare_new(key, name)
        }
    }
    /// Declares `key` where it was not declared, with the name that the
    /// caller looked up for it.
    fn declare_if_needed(&mut self, key: LocalTypeKey, name: Option<String>) -> (r: Result<Vec<Frame>, WriteError>)
        requires
            old(self).wf(),
            !old(self).declared_view().contains_key(key.0) ==> name is Some,
        ensures
            final(self).wf(),
            final(self).outbound_view() == old(self).outbound_view(),
            final(self).declared_view().contains_key(key.0) || r is Err,
            declare_step(old(self).declared_view(), key, name, r, final(self).declared_view()),
    {
        if self.declared.is_declared(key) {
            Ok(Vec::new())
        } else {
            match name {
                Some(n) => self.declare_new(key, n),
                None => Ok(Vec::new()),
            }
        }
    }

    /// Reports a route change to the peer, declaring its type first where it
    /// was not declared; `name` is the name of an undeclared type.
    pub fn subnet_distance(&mut self, route: &SetRoute, name: Option<String>) -> (r: Result<Vec<Frame>, WriteError>)
        requires
            old(self).wf(),
            !old(self).declared_view().contains_key(route.message.0) ==> name is Some,
        ensures
            final(self).wf(),
            final(self).outbound_view() == old(self).outbound_view(),
            match r {
                Ok(f) => {
                    exists|d: Vec<Frame>| declare_step(old(self).declared_view(), route.message, name, Ok(d), final(self).declared_view())
                        && f@ == d@.push(Frame::Header(Header::SubnetDistance(SubnetDistance {
                            net_address: route.destination,
                            type_handle: route.message,
                            metric: route.metric,
                        })))
                },
                Err(e) => declare_step(old(self).declared_view(), route.message, name, Err(e), final(self).declared_view()),
            },
    {
        let mut frames = match self.declare_if_needed(route.message, name) {
            Ok(f) => f,
            Err(e) => {
                return Err(e);
            },
        };
        let ghost d = frames;
        frames.push(Frame::Header(Header::SubnetDistance(SubnetDistance {
            net_address: route.destination,
            type_handle: route.message,
            metric: route.metric,
        })));
        assert(declare_step(old(self).declared_view(), route.message, name, Ok(d), self.declared_view()));
        Ok(frames)
    }

    /// Writes a forwarded message, declaring its type first where it was not
    /// declared; `name` is the name of an undeclared type. The frames are
    /// written, up to the error, if there is one.
    pub fn opaque_message(&mut self, info: &EnvelopeInfo, forward: Forward, name: Option<String>) -> (r: (
        Vec<Frame>,
        Result<(), WriteError>,
    ))
        requires
            old(self).wf(),
            !old(self).declared_view().contains_key(forward.local_type_key.0) ==> name is Some,
        ensures
            final(self).wf(),
            final(self).outbound_view() == old(self).outbound_view(),
            exists|d: Result<Vec<Frame>, WriteError>| {
                &&& declare_step(old(self).declared_view(), forward.local_type_key, name, d, final(self).declared_view())
                &&& match d {
                    Err(e) => r.0@.len() == 0 && r.1 == Err::<(), WriteError>(e),
                    Ok(df) => if forward.body.len() <= MAX_BODY_LEN {
                        r.1 is Ok && r.0@.len() == df@.len() + 2 && r.0@.take(df@.len() as int) == df@
                            && transmit_frames(r.0@.skip(df@.len() as int), *info, forward.local_type_key, forward.body@)
                    } else {
                        r.0@ == df@ && r.1 == Err::<(), WriteError>(WriteError::MessageTooLarge)
                    },
                }
            },
    {
        let key = forward.local_type_key;
        let ghost body = forward.body@;
        let d = self.declare_if_needed(key, name);
        let mut frames = match d {
            Ok(f) => f,
            Err(e) => {
                return (Vec::new(), Err(e));
            },
        };
        let ghost df = frames;
        let header = match transmit_header(info, key, forward.body.len()) {
            Ok(t) => t,
            Err(e) => {
                assert(declare_step(old(self).declared_view(), key, name, Ok::<Vec<Frame>, WriteError>(df), self.declared_view()));
                return (frames, Err(e));
            },
        };
        frames.push(Frame::Header(Header::TransmitMessage(header)));
        frames.push(Frame::Payload(forward.body));
        proof {
            assert(frames@.take(df@.len() as int) =~= df@);
            let t = frames@.skip(df@.len() as int);
            assert(t.len() == 2);
            assert(t[0] == frames@[df@.len() as int]);
            assert(t[1] == frames@[df@.len() as int + 1]);
            assert(declare_step(old(self).declared_view(), key, name, Ok::<Vec<Frame>, WriteError>(df), self.declared_view()));
        }
        (frames, Ok(()))
    }

    /// Writes a message of a known type, already encoded. Its type must have
    /// been declared to the peer: the runtime panics otherwise.
    pub fn known_message(&self, info: &EnvelopeInfo, tid: TypeTag, encoded: Vec<u8>) -> (r: Result<Vec<Frame>, WriteError>)
        requires
            self.wf(),
            first_key(self.outbound_view(), tid) matches Some(k) ==> self.declared_view().contains_key(k.0),
        ensures
            match first_key(self.outbound_view(), tid) {
                None => r == Err::<Vec<Frame>, _>(WriteError::NoCodec(tid)),
                Some(k) => if encoded.len() <= MAX_BODY_LEN {
                    r matches Ok(f) && transmit_frames(f@, *info, k, encoded@)
                } else {
                    r == Err::<Vec<Frame>, _>(WriteError::MessageTooLarge)
                },
            },
    {
        let key = match self.key_of(tid) {
            Some(k) => k,
            None => {
                return Err(WriteError::NoCodec(tid));
            },
        };
        let header = match transmit_header(info, key, encoded.len()) {
            Ok(t) => t,
            Err(e) => {
                return Err(e);
            },
        };
        let ghost body = encoded@;
        let mut frames: Vec<Frame> = Vec::new();
        frames.push(Frame::Header(Header::TransmitMessage(header)));
        frames.push(Frame::Payload(encoded));
        Ok(frames)
    }
}

/// A declaration where it is needed: none for a declared key (nothing to
/// write, nothing changes); else the key is declared with the name given,
/// unless the name is too long.
pub open spec fn declare_step(
    before: Map<u64, Seq<char>>,
    key: LocalTypeKey,
    name: Option<String>,
    r: Result<Vec<Frame>, WriteError>,
    after: Map<u64, Seq<char>>,
) -> bool {
    if before.contains_key(key.0) {
        r matches Ok(f) && f@.len() == 0 && after == before
    } else {
        let n = name->0@;
        if name_len(n) <= MAX_BODY_LEN {
            r matches Ok(f) && declare_frames(f@, key, n) && after == before.insert(key.0, n)
        } else {
            r == Err::<Vec<Frame>, _>(WriteError::NameTooLong(key)) && after == before
        }
    }
}

/// A message's type is declared to the peer before the message goes out, and
/// a declaration is never withdrawn: where the declaration step succeeds, the
/// key is declared afterwards and every earlier declaration stays as it was.
pub proof fn law_declaration_precedes_transmission(
    before: Map<u64, Seq<char>>,
    key: LocalTypeKey,
    name: Option<String>,
    frames: Vec<Frame>,
    after: Map<u64, Seq<char>>,
)
    requires
        declare_step(before, key, name, Ok(frames), after),
    ensures
        after.contains_key(key.0),
        forall|k: u64| #[trigger] before.contains_key(k) ==> after.contains_key(k) && after[k] == before[k],
{
}

/// The number of bytes a frame puts on the wire after its header: a name in
/// UTF-8 or a payload; a header frame is not a body.
pub open spec fn body_bytes(f: Frame) -> nat {
    match f {
        Frame::Header(_) => 0,
        Frame::TypeName(n) => name_len(n@),
        Frame::Payload(b) => b@.len(),
    }
}

/// The frames read back as they were written: the reader takes a header,
/// then exactly as many bytes as the header announces, then the next header.
/// So a header followed by a body frame announces that frame's length, and a
/// header followed by another header, or by nothing, announces none.
pub open spec fn delimited(f: Seq<Frame>) -> bool
    decreases f.len(),
{
    if f.len() == 0 {
        true
    } else if f[0] is Header {
        let h = f[0]->Header_0;
        if f.len() >= 2 && !(f[1] is Header) {
            body_bytes(f[1]) == spec_body_len(h) && delimited(f.subrange(2, f.len() as int))
        } else {
            spec_body_len(h) == 0 && delimited(f.drop_first())
        }
    } else {
        false
    }
}

/// A declaration's frames are delimited: the header announces the length of
/// the name in UTF-8, and the name follows.
pub proof fn law_declaration_is_delimited(f: Seq<Frame>, key: LocalTypeKey, name: Seq<char>)
    requires
        declare_frames(f, key, name),
    ensures
        delimited(f),
{
    assert(f.subrange(2, f.len() as int) =~= Seq::<Frame>::empty());
    assert(delimited(Seq::<Frame>::empty()));
}

/// A message's frames are delimited: the header announces the payload's
/// length, and the payload follows.
pub proof fn law_transmission_is_delimited(f: Seq<Frame>, info: EnvelopeInfo, key: LocalTypeKey, body: Seq<u8>)
    requires
        transmit_frames(f, info, key, body),
    ensures
        delimited(f),
{
    assert(f.subrange(2, f.len() as int) =~= Seq::<Frame>::empty());
    assert(delimited(Seq::<Frame>::empty()));
}

/// A route change's frames are delimited: the declaration it needs, if any,
/// then the route's header, which carries no body, so the reader's next
/// header starts right after it. A keep-alive alone is delimited too.
pub proof fn law_route_change_is_delimited(
    before: Map<u64, Seq<char>>,
    route: SetRoute,
    name: Option<String>,
    d: Vec<Frame>,
    after: Map<u64, Seq<char>>,
)
    requires
        declare_step(before, route.message, name, Ok(d), after),
    ensures
        delimited(d@.push(Frame::Header(Header::SubnetDistance(SubnetDistance {
            net_address: route.destination,
            type_handle: route.message,
            metric: route.metric,
        })))),
        delimited(seq![Frame::Header(Header::<LocalTypeKey>::KeepAlive)]),
{
    let h = Frame::Header(Header::SubnetDistance(SubnetDistance {
        net_address: route.destination,
        type_handle: route.message,
        metric: route.metric,
    }));
    let f = d@.push(h);
    let one = seq![h];
    assert(delimited(Seq::<Frame>::empty()));
    assert(one.drop_first() =~= Seq::<Frame>::empty());
    assert(delimited(one));
    let ka = seq![Frame::Header(Header::<LocalTypeKey>::KeepAlive)];
    assert(ka.drop_first() =~= Seq::<Frame>::empty());
    if d@.len() == 2 {
        assert(f.subrange(2, f.len() as int) =~= one);
    } else {
        assert(f =~= one);
    }
}

} // verus!
