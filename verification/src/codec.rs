//! Protocols: the message types that a connection carries, each with the
//! codec that encodes it.
//!
//! A codec is known here by what the runtime asks of it: the Rust type it
//! stands for, where it has one (a `TypeTag`), and the name of its message
//! type. An opaque codec has no type: it only forwards bytes.

use vstd::prelude::*;

use slotmap::{DefaultKey, SlotMap};

use crate::slots::SLOTS_MAX;

verus! {

/// Stands for a Rust type (its `TypeId`).
#[derive(Clone, Copy, Debug, PartialEq, Eq, Structural, Hash)]
pub struct TypeTag(pub u64);

/// A codec: the type it encodes, where it has one, and the message name.
#[derive(Clone)]
pub struct ErasedCodec {
    tid: Option<TypeTag>,
    name: String,
}

/// A codec for a message type of which only the name is known.
pub struct Opaque(pub String);

/// A codec as the contracts see it.
pub type CodecView = (Option<TypeTag>, Seq<char>);

impl View for ErasedCodec {
    type V = CodecView;

    closed spec fn view(&self) -> CodecView {
        (self.tid, self.name@)
    }
}

impl ErasedCodec {
    /// The codec of a known message type.
    pub fn known(tid: TypeTag, name: String) -> (r: Self)
        ensures
            r@ == (Some(tid), name@),
    {
        ErasedCodec { tid: Some(tid), name }
    }

    /// The codec of an opaque message type.
    pub fn from_opaque(opaque: Opaque) -> (r: Self)
        ensures
            r@ == (None::<TypeTag>, opaque.0@),
    {
        ErasedCodec { tid: None, name: opaque.0 }
    }

    /// The type that the codec encodes, where it has one.
    pub fn tid(&self) -> (r: Option<TypeTag>)
        ensures
            r == self@.0,
    {
        self.tid
    }

    /// The name of the message type.
    pub fn name(&self) -> (r: String)
        ensures
            r@ == self@.1,
    {
        self.name.clone()
    }

    /// A copy of the codec.
    pub fn duplicate(&self) -> (r: Self)
        ensures
            r@ == self@,
    {
        ErasedCodec { tid: self.tid, name: self.name.clone() }
    }
}

/// No two codecs share a message name, nor a type.
pub open spec fn codecs_wf(s: Seq<CodecView>) -> bool {
    &&& forall|i: int, j: int| 0 <= i < s.len() && 0 <= j < s.len() && i != j ==> s[i].1 != s[j].1
    &&& forall|i: int, j: int|
        0 <= i < s.len() && 0 <= j < s.len() && i != j && s[i].0 is Some ==> s[i].0 != s[j].0
}

pub open spec fn codec_views(s: Seq<ErasedCodec>) -> Seq<CodecView> {
    Seq::new(s.len(), |i: int| s[i]@)
}

/// Adding a codec to a protocol whose name is new and whose type is already
/// there (under another name) makes the runtime panic;
/// these are the codecs that can be added.
pub open spec fn codec_addable(s: Seq<CodecView>, c: CodecView) -> bool {
    (exists|i: int| 0 <= i < s.len() && #[trigger] s[i].1 == c.1)
        || c.0 is None
        || forall|i: int| 0 <= i < s.len() ==> #[trigger] s[i].0 != c.0
}

/// The codecs after adding one: a codec whose name is there already changes
/// nothing; another one is appended.
pub open spec fn codecs_after_add(s: Seq<CodecView>, c: CodecView) -> Seq<CodecView> {
    if exists|i: int| 0 <= i < s.len() && #[trigger] s[i].1 == c.1 {
        s
    } else {
        s.push(c)
    }
}

/// Adding the same codec twice leaves a protocol as adding it once.
pub proof fn law_adding_a_codec_twice_is_adding_it_once(s: Seq<CodecView>, c: CodecView)
    ensures
        codecs_after_add(codecs_after_add(s, c), c) == codecs_after_add(s, c),
{
    let once = codecs_after_add(s, c);
    if !exists|i: int| 0 <= i < s.len() && #[trigger] s[i].1 == c.1 {
        assert(once[s.len() as int].1 == c.1);
    }
}

/// Adding a codec keeps the codecs there, in their order, and the protocol
/// then has a codec under the added codec's name: the one that was there, or
/// the added codec, last.
pub proof fn law_adding_a_codec_keeps_the_others(s: Seq<CodecView>, c: CodecView)
    ensures
        codecs_after_add(s, c).subrange(0, s.len() as int) == s,
        exists|i: int| 0 <= i < codecs_after_add(s, c).len() && #[trigger] codecs_after_add(s, c)[i].1 == c.1,
        codecs_after_add(s, c).len() == s.len() || codecs_after_add(s, c).last() == c,
{
    let after = codecs_after_add(s, c);
    assert(after.subrange(0, s.len() as int) =~= s);
    if !exists|i: int| 0 <= i < s.len() && #[trigger] s[i].1 == c.1 {
        assert(after[s.len() as int].1 == c.1);
    }
}

/// The codecs of a protocol in a slot map.
#[verifier::external_body]
pub struct ProtocolCodecs {
    inner: SlotMap<DefaultKey, ErasedCodec>,
}

/// Names the codecs that a slot map holds, in the order it iterates over
/// them.
pub uninterp spec fn protocol_codecs(m: ProtocolCodecs) -> Seq<CodecView>;

/// `SlotMap::new`: no codecs.
#[verifier::external_body]
fn protocol_codecs_new() -> (r: ProtocolCodecs)
    ensures
        protocol_codecs(r) =~= Seq::<CodecView>::empty(),
{
    ProtocolCodecs { inner: SlotMap::new() }
}

/// `SlotMap::insert`: the codec takes the next slot. Nothing is ever removed
/// from these maps, so no slot is free for reuse and the new slot comes last
/// in the order of iteration. It panics when the map holds `SLOTS_MAX` values.
#[verifier::external_body]
fn protocol_codecs_insert(m: &mut ProtocolCodecs, c: ErasedCodec)
    requires
        protocol_codecs(*old(m)).len() < SLOTS_MAX,
    ensures
        protocol_codecs(*final(m)) == protocol_codecs(*old(m)).push(c@),
{
    m.inner.insert(c);
}

/// `SlotMap::iter`: each codec, in the order of iteration, copied.
#[verifier::external_body]
fn protocol_codecs_list(m: &ProtocolCodecs) -> (r: Vec<ErasedCodec>)
    ensures
        codec_views(r@) == protocol_codecs(*m),
{
    m.inner.iter().map(|(_, c)| c.duplicate()).collect()
}

/// The message types of a connection, in the order they were added.
pub struct Protocol {
    codecs: ProtocolCodecs,
}

impl View for Protocol {
    type V = Seq<CodecView>;

    closed spec fn view(&self) -> Seq<CodecView> {
        protocol_codecs(self.codecs)
    }
}

impl Protocol {
    /// A protocol without message types.
    pub fn new() -> (r: Self)
        ensures
            r@ == Seq::<CodecView>::empty(),
    {
        Protocol { codecs: protocol_codecs_new() }
    }

    /// Adds a codec: one whose message name is there already is ignored.
    pub fn add_codec(&mut self, codec: ErasedCodec)
        requires
            codecs_wf(old(self)@),
            codec_addable(old(self)@, codec@),
            codecs_after_add(old(self)@, codec@).len() <= SLOTS_MAX,
        ensures
            codecs_wf(final(self)@),
            final(self)@ == codecs_after_add(old(self)@, codec@),
    {
        let ghost s = self@;
        let listed = protocol_codecs_list(&self.codecs);
        let mut i: usize = 0;
        while i < listed.len()
            invariant
                0 <= i <= listed.len(),
                s == codec_views(listed@),
                s == old(self)@,
                codecs_wf(s),
                forall|j: int| 0 <= j < i ==> s[j].1 != codec@.1,
            decreases listed.len() - i,
        {
            assert(s[i as int] == listed@[i as int]@);
            if listed[i].name() == codec.name() {
                return;
            }
            i = i + 1;
        }
        proof {
            assert(!exists|j: int| 0 <= j < s.len() && #[trigger] s[j].1 == codec@.1);
        }
        protocol_codecs_insert(&mut self.codecs, codec);
    }

    /// The protocol with a codec added.
    pub fn with_codec(self, codec: ErasedCodec) -> (r: Self)
        requires
            codecs_wf(self@),
            codec_addable(self@, codec@),
            codecs_after_add(self@, codec@).len() <= SLOTS_MAX,
        ensures
            codecs_wf(r@),
            r@ == codecs_after_add(self@, codec@),
    {
        let mut p = self;
        p.add_codec(codec);
        p
    }

    /// The codecs of the messages that the protocol sends: all of them.
    pub fn outbound_types(&self) -> (r: Vec<ErasedCodec>)
        ensures
            codec_views(r@) == self@,
    {
        self.all_codecs()
    }

    /// The codecs of the messages that the protocol receives: all of them.
    pub fn inbound_types(&self) -> (r: Vec<ErasedCodec>)
        ensures
            codec_views(r@) == self@,
    {
        self.all_codecs()
    }

    fn all_codecs(&self) -> (r: Vec<ErasedCodec>)
        ensures
            codec_views(r@) == self@,
    {
        protocol_codecs_list(&self.codecs)
    }
}

} // verus!
