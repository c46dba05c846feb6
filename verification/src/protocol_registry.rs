//! The protocols registered with a node, and the node-local keys of the
//! message types that they carry.

use std::collections::HashMap;
use std::sync::Arc;

use slotmap::{DefaultKey, Key, KeyData, SlotMap};
use vstd::prelude::*;

use crate::assoc::{
    assoc_view, keys_unique, lemma_assoc_absent, lemma_assoc_index, lemma_assoc_push, lemma_assoc_remove,
};
use crate::codec::{codecs_wf, CodecView, ErasedCodec, Protocol, TypeTag};
use crate::slots::{key_is_issued, SLOTS_MAX};
use crate::type_keys::LocalTypeKey;

verus! {

#[derive(Clone, Copy, Debug, PartialEq, Eq, Structural)]
pub enum RegisterProtocolErrorKind {
    DuplicateProtocolName,
}

#[derive(Clone, Copy, Debug, PartialEq, Eq, Structural)]
pub enum UnregisterProtocolErrorKind {
    NoProtocol,
    ProtocolInUse,
}

/// A slot map of codecs.
#[verifier::external_body]
pub struct CodecSlots {
    inner: SlotMap<DefaultKey, ErasedCodec>,
}

/// Names what a slot map of codecs holds, by key.
pub uninterp spec fn codec_slots(m: CodecSlots) -> Map<u64, CodecView>;

/// `SlotMap::new`: an empty slot map.
#[verifier::external_body]
fn codec_slots_new() -> (r: CodecSlots)
    ensures
        codec_slots(r) =~= Map::empty(),
{
    CodecSlots { inner: SlotMap::new() }
}

/// `SlotMap::insert`: stores the codec under a key that the map did not hold,
/// and returns that key. It panics when the map holds `SLOTS_MAX` values.
#[verifier::external_body]
fn codec_slots_insert(m: &mut CodecSlots, v: ErasedCodec) -> (k: u64)
    requires
        codec_slots(*old(m)).dom().finite(),
        codec_slots(*old(m)).dom().len() < SLOTS_MAX,
    ensures
        !codec_slots(*old(m)).dom().contains(k),
        key_is_issued(k),
        codec_slots(*final(m)) == codec_slots(*old(m)).insert(k, v@),
{
    m.inner.insert(v).data().as_ffi()
}

/// `SlotMap`'s `IndexMut`: replaces the codec under a key that the map holds.
#[verifier::external_body]
fn codec_slots_replace(m: &mut CodecSlots, k: u64, v: ErasedCodec)
    requires
        key_is_issued(k),
        codec_slots(*old(m)).dom().contains(k),
    ensures
        codec_slots(*final(m)) == codec_slots(*old(m)).insert(k, v@),
{
    m.inner[DefaultKey::from(KeyData::from_ffi(k))] = v;
}

/// `SlotMap`'s `Index`, with the codec's derived `Clone`: a copy of the codec
/// under a key that the map holds.
#[verifier::external_body]
fn codec_slots_get(m: &CodecSlots, k: u64) -> (r: ErasedCodec)
    requires
        key_is_issued(k),
        codec_slots(*m).dom().contains(k),
    ensures
        r@ == codec_slots(*m)[k],
{
    m.inner[DefaultKey::from(KeyData::from_ffi(k))].clone()
}

/// `Arc::clone`: another handle to the same protocol.
#[verifier::external_body]
pub(crate) fn protocol_handle(p: &Arc<Protocol>) -> (r: Arc<Protocol>)
    ensures
        *r == **p,
{
    Arc::clone(p)
}

/// `Arc::get_mut`, asked only whether it gives access: whether no other
/// handle shares the protocol. That depends on the handles that exist
/// elsewhere, so nothing is stated of the answer; the handle is unchanged.
#[verifier::external_body]
fn protocol_is_unshared(p: &mut Arc<Protocol>) -> (r: bool)
    ensures
        **final(p) == **old(p),
{
    Arc::get_mut(p).is_some()
}

pub open spec fn protocols_seq(s: Seq<(String, Arc<Protocol>)>) -> Seq<(Seq<char>, Seq<CodecView>)> {
    Seq::new(s.len(), |i: int| (s[i].0@, (*s[i].1)@))
}

pub open spec fn names_seq(s: Seq<(String, LocalTypeKey)>) -> Seq<(Seq<char>, u64)> {
    Seq::new(s.len(), |i: int| (s[i].0@, s[i].1.0))
}

/// A map by the value of a type tag, read as a map by the tag.
pub open spec fn by_tag(m: Map<u64, u64>) -> Map<TypeTag, u64> {
    Map::new(|t: TypeTag| m.contains_key(t.0), |t: TypeTag| m[t.0])
}

/// The protocols and message types known to a node.
pub struct ProtocolRegistry {
    protocols: Vec<(String, Arc<Protocol>)>,
    codecs: CodecSlots,
    codec_by_name: Vec<(String, LocalTypeKey)>,
    codec_by_type_id: HashMap<u64, u64>,
}

/// What registering the codec `c` under the local key `key` does: a codec of
/// a type already indexed is not stored again; a known codec of a name
/// already indexed replaces the codec of that name and indexes its type;
/// a new name gets a new key. An opaque codec is only indexed by name.
pub open spec fn message_registered(old: ProtocolRegistry, new: ProtocolRegistry, c: CodecView, key: u64) -> bool {
    &&& new.protocols() == old.protocols()
    &&& match c.0 {
        Some(t) => if old.by_tid().contains_key(t) {
            &&& key == old.by_tid()[t]
            &&& new.codecs() == old.codecs()
            &&& new.by_name() == old.by_name()
            &&& new.by_tid() == old.by_tid()
        } else if old.by_name().contains_key(c.1) {
            &&& key == old.by_name()[c.1]
            &&& new.codecs() == old.codecs().insert(key, c)
            &&& new.by_name() == old.by_name()
            &&& new.by_tid() == old.by_tid().insert(t, key)
        } else {
            &&& !old.codecs().dom().contains(key)
            &&& new.codecs() == old.codecs().insert(key, c)
            &&& new.by_name() == old.by_name().insert(c.1, key)
            &&& new.by_tid() == old.by_tid().insert(t, key)
        },
        None => if old.by_name().contains_key(c.1) {
            &&& key == old.by_name()[c.1]
            &&& new.codecs() == old.codecs()
            &&& new.by_name() == old.by_name()
            &&& new.by_tid() == old.by_tid()
        } else {
            &&& !old.codecs().dom().contains(key)
            &&& new.codecs() == old.codecs().insert(key, c)
            &&& new.by_name() == old.by_name().insert(c.1, key)
            &&& new.by_tid() == old.by_tid()
        },
    }
}

fn find_name(v: &Vec<(String, LocalTypeKey)>, name: &String) -> (r: Option<usize>)
    ensures
        r matches Some(i) ==> i < v.len() && v@[i as int].0@ == name@,
        r is None ==> forall|i: int| 0 <= i < v.len() ==> v@[i].0@ != name@,
{
    let mut i: usize = 0;
    while i < v.len()
        invariant
            0 <= i <= v.len(),
            forall|j: int| 0 <= j < i ==> v@[j].0@ != name@,
        decreases v.len() - i,
    {
        if v[i].0 == *name {
            return Some(i);
        }
        i = i + 1;
    }
    None
}

fn find_protocol(v: &Vec<(String, Arc<Protocol>)>, name: &String) -> (r: Option<usize>)
    ensures
        r matches Some(i) ==> i < v.len() && v@[i as int].0@ == name@,
        r is None ==> forall|i: int| 0 <= i < v.len() ==> v@[i].0@ != name@,
{
    let mut i: usize = 0;
    while i < v.len()
        invariant
            0 <= i <= v.len(),
            forall|j: int| 0 <= j < i ==> v@[j].0@ != name@,
        decreases v.len() - i,
    {
        if v[i].0 == *name {
            return Some(i);
        }
        i = i + 1;
    }
    None
}

/// The types of the first `i` codecs of a protocol.
pub open spec fn tids_of(s: Seq<CodecView>, i: int) -> Set<TypeTag> {
    Set::new(|t: TypeTag| exists|j: int| 0 <= j < i && 0 <= j < s.len() && s[j].0 == Some(t))
}

/// Every codec of the protocol encodes a type.
pub open spec fn all_known(s: Seq<CodecView>) -> bool {
    forall|i: int| 0 <= i < s.len() ==> (#[trigger] s[i]).0 is Some
}

impl ProtocolRegistry {
    /// The protocols by name, each with its codecs.
    pub closed spec fn protocols(&self) -> Map<Seq<char>, Seq<CodecView>> {
        assoc_view(protocols_seq(self.protocols@))
    }

    /// The codecs of the message types, by local key.
    pub closed spec fn codecs(&self) -> Map<u64, CodecView> {
        codec_slots(self.codecs)
    }

    /// The local key of each message name.
    pub closed spec fn by_name(&self) -> Map<Seq<char>, u64> {
        assoc_view(names_seq(self.codec_by_name@))
    }

    /// The local key of each type.
    pub closed spec fn by_tid(&self) -> Map<TypeTag, u64> {
        by_tag(self.codec_by_type_id@)
    }

    /// What the registry keeps: each name and type indexed once, every index
    /// pointing at a codec, the name index at a codec of that name, and every
    /// protocol's codecs well formed.
    pub closed spec fn wf(&self) -> bool {
        &&& keys_unique(protocols_seq(self.protocols@))
        &&& keys_unique(names_seq(self.codec_by_name@))
        &&& self.codecs().dom().finite()
        &&& forall|k: u64| #[trigger] self.codecs().dom().contains(k) ==> key_is_issued(k)
        &&& forall|n: Seq<char>| #[trigger] self.by_name().contains_key(n)
            ==> self.codecs().dom().contains(self.by_name()[n]) && self.codecs()[self.by_name()[n]].1 == n
        &&& forall|t: TypeTag| #[trigger] self.by_tid().contains_key(t) ==> self.codecs().dom().contains(self.by_tid()[t])
        &&& forall|n: Seq<char>| #[trigger] self.protocols().contains_key(n) ==> codecs_wf(self.protocols()[n])
    }

    /// How many codecs the slot map holds.
    pub closed spec fn codec_count(&self) -> nat {
        self.codecs().dom().len()
    }

    /// An empty registry.
    pub fn new() -> (r: Self)
        ensures
            r.wf(),
            r.protocols() == Map::<Seq<char>, Seq<CodecView>>::empty(),
            r.codecs() == Map::<u64, CodecView>::empty(),
            r.by_name() == Map::<Seq<char>, u64>::empty(),
            r.by_tid() == Map::<TypeTag, u64>::empty(),
            r.codec_count() == 0,
    {
        let r = ProtocolRegistry {
            protocols: Vec::new(),
            codecs: codec_slots_new(),
            codec_by_name: Vec::new(),
            codec_by_type_id: HashMap::new(),
        };
        assert(r.protocols() =~= Map::<Seq<char>, Seq<CodecView>>::empty());
        assert(r.by_name() =~= Map::<Seq<char>, u64>::empty());
        assert(r.by_tid() =~= Map::<TypeTag, u64>::empty());
        r
    }

    /// The local key of the message name, where it is indexed.
    pub fn key_by_name(&self, name: &String) -> (r: Option<LocalTypeKey>)
        requires
            self.wf(),
        ensures
            r matches Some(k) ==> self.by_name().contains_key(name@) && k.0 == self.by_name()[name@],
            r is None ==> !self.by_name().contains_key(name@),
    {
        let ghost s = names_seq(self.codec_by_name@);
        match find_name(&self.codec_by_name, name) {
            Some(i) => {
                proof {
                    lemma_assoc_index(s, i as int);
                }
                Some(self.codec_by_name[i].1)
            },
            None => {
                proof {
                    assert forall|j: int| 0 <= j < s.len() implies s[j].0 != name@ by {
                        assert(s[j].0 == self.codec_by_name@[j].0@);
                    }
                    lemma_assoc_absent(s, name@);
                }
                None
            },
        }
    }

    /// The local key of the type, where it is indexed.
    pub fn local_type_key_by_tid(&self, tid: TypeTag) -> (r: Option<LocalTypeKey>)
        requires
            self.wf(),
        ensures
            r matches Some(k) ==> self.by_tid().contains_key(tid) && k.0 == self.by_tid()[tid],
            r is None ==> !self.by_tid().contains_key(tid),
    {
        broadcast use vstd::std_specs::hash::group_hash_axioms;

        match self.codec_by_type_id.get(&tid.0) {
            Some(k) => Some(LocalTypeKey(*k)),
            None => None,
        }
    }

    /// The message name of a local key that the registry issued.
    /// The Rust type of the codec under a key, if it has one.
    pub fn type_of_key(&self, key: LocalTypeKey) -> (r: Option<TypeTag>)
        requires
            self.wf(),
            self.codecs().dom().contains(key.0),
        ensures
            r == self.codecs()[key.0].0,
    {
        codec_slots_get(&self.codecs, key.0).tid()
    }

    pub fn message_name_by_key(&self, key: LocalTypeKey) -> (r: String)
        requires
            self.wf(),
            self.codecs().dom().contains(key.0),
        ensures
            r@ == self.codecs()[key.0].1,
    {
        codec_slots_get(&self.codecs, key.0).name()
    }

    /// Indexes `k` under the name of a codec that is not indexed yet.
    fn index_name(&mut self, name: String, k: LocalTypeKey)
        requires
            keys_unique(names_seq(old(self).codec_by_name@)),
            !old(self).by_name().contains_key(name@),
        ensures
            keys_unique(names_seq(final(self).codec_by_name@)),
            final(self).by_name() == old(self).by_name().insert(name@, k.0),
            final(self).protocols == old(self).protocols,
            final(self).codecs == old(self).codecs,
            final(self).codec_by_type_id == old(self).codec_by_type_id,
    {
        let ghost s = names_seq(self.codec_by_name@);
        self.codec_by_name.push((name, k));
        proof {
            lemma_assoc_push(s, name@, k.0);
            assert(names_seq(self.codec_by_name@) =~= s.push((name@, k.0)));
        }
    }

    /// Indexes `k` under a type that is not indexed yet.
    fn index_tid(&mut self, t: TypeTag, k: LocalTypeKey)
        requires
            !old(self).by_tid().contains_key(t),
        ensures
            final(self).by_tid() == old(self).by_tid().insert(t, k.0),
            final(self).protocols == old(self).protocols,
            final(self).codecs == old(self).codecs,
            final(self).codec_by_name == old(self).codec_by_name,
    {
        broadcast use vstd::std_specs::hash::group_hash_axioms;

        let ghost before = self.codec_by_type_id@;
        self.codec_by_type_id.insert(t.0, k.0);
        assert(by_tag(self.codec_by_type_id@) =~= by_tag(before).insert(t, k.0));
    }

    /// Registers a message type by its codec and returns its local key.
    pub fn register_message(&mut self, codec: ErasedCodec) -> (r: LocalTypeKey)
        requires
            old(self).wf(),
            old(self).codec_count() < SLOTS_MAX,
        ensures
            final(self).wf(),
            final(self).codec_count() <= old(self).codec_count() + 1,
            final(self).codecs().dom().contains(r.0),
            message_registered(*old(self), *final(self), codec@, r.0),
    {
        let ghost c = codec@;
        let name = codec.name();
        match codec.tid() {
            Some(t) => {
                if let Some(k) = self.local_type_key_by_tid(t) {
                    return k;
                }
                match self.key_by_name(&name) {
                    Some(k) => {
                        proof {
                            assert(key_is_issued(k.0));
                        }
                        codec_slots_replace(&mut self.codecs, k.0, codec);
                        self.index_tid(t, k);
                        proof {
                            assert(self.codecs().dom() =~= old(self).codecs().dom());
                            assert forall|n: Seq<char>| #[trigger] self.by_name().contains_key(n) implies self.codecs().dom().contains(
                                self.by_name()[n],
                            ) && self.codecs()[self.by_name()[n]].1 == n by {
                                assert(old(self).codecs()[old(self).by_name()[n]].1 == n);
                            }
                            assert forall|t2: TypeTag| #[trigger] self.by_tid().contains_key(t2) implies self.codecs().dom().contains(self.by_tid()[t2]) by {
                                if t2 != t {
                                    assert(old(self).codecs().dom().contains(old(self).by_tid()[t2]));
                                }
                            }
                            assert(self.protocols() == old(self).protocols());
                        }
                        k
                    },
                    None => {
                        let raw = codec_slots_insert(&mut self.codecs, codec);
                        let k = LocalTypeKey(raw);
                        self.index_name(name, k);
                        self.index_tid(t, k);
                        proof {
                            assert(self.codecs().dom() =~= old(self).codecs().dom().insert(raw));
                            assert forall|n: Seq<char>| #[trigger] self.by_name().contains_key(n) implies self.codecs().dom().contains(
                                self.by_name()[n],
                            ) && self.codecs()[self.by_name()[n]].1 == n by {
                                if n != name@ {
                                    assert(old(self).codecs()[old(self).by_name()[n]].1 == n);
                                }
                            }
                            assert forall|t2: TypeTag| #[trigger] self.by_tid().contains_key(t2) implies self.codecs().dom().contains(self.by_tid()[t2]) by {
                                if t2 != t {
                                    assert(old(self).codecs().dom().contains(old(self).by_tid()[t2]));
                                }
                            }
                            assert(self.protocols() == old(self).protocols());
                        }
                        k
                    },
                }
            },
            None => {
                if let Some(k) = self.key_by_name(&name) {
                    return k;
                }
                let raw = codec_slots_insert(&mut self.codecs, codec);
                let k = LocalTypeKey(raw);
                self.index_name(name, k);
                proof {
                    assert(self.codecs().dom() =~= old(self).codecs().dom().insert(raw));
                    assert forall|n: Seq<char>| #[trigger] self.by_name().contains_key(n) implies self.codecs().dom().contains(
                        self.by_name()[n],
                    ) && self.codecs()[self.by_name()[n]].1 == n by {
                        if n != name@ {
                            assert(old(self).codecs()[old(self).by_name()[n]].1 == n);
                        }
                    }
                    assert forall|t2: TypeTag| #[trigger] self.by_tid().contains_key(t2) implies self.codecs().dom().contains(self.by_tid()[t2]) by {
                        assert(old(self).codecs().dom().contains(old(self).by_tid()[t2]));
                    }
                    assert(self.protocols() == old(self).protocols());
                }
                k
            },
        }
    }

    /// Registers each codec of the list, all of which encode a type; the types
    /// and names indexed before keep their keys.
    fn register_codecs(&mut self, codecs: &Vec<ErasedCodec>)
        requires
            old(self).wf(),
            all_known(crate::codec::codec_views(codecs@)),
            old(self).codec_count() + codecs.len() < SLOTS_MAX,
        ensures
            final(self).wf(),
            final(self).protocols() == old(self).protocols(),
            final(self).codec_count() <= old(self).codec_count() + codecs.len(),
            forall|j: int| 0 <= j < codecs.len() ==> final(self).by_tid().contains_key(
                (#[trigger] codecs@[j])@.0.unwrap(),
            ),
            forall|t: TypeTag| #[trigger] old(self).by_tid().contains_key(t) ==> final(self).by_tid()[t] == old(self).by_tid()[t],
            forall|n: Seq<char>| #[trigger] old(self).by_name().contains_key(n)
                ==> final(self).by_name().contains_key(n) && final(self).by_name()[n] == old(self).by_name()[n],
            final(self).by_tid().dom() == old(self).by_tid().dom() + tids_of(
                crate::codec::codec_views(codecs@),
                codecs.len() as int,
            ),
    {
        let ghost p = crate::codec::codec_views(codecs@);
        let mut i: usize = 0;
        while i < codecs.len()
            invariant
                0 <= i <= codecs.len(),
                p == crate::codec::codec_views(codecs@),
                all_known(p),
                self.wf(),
                self.protocols() == old(self).protocols(),
                self.codec_count() <= old(self).codec_count() + i,
                old(self).codec_count() + codecs.len() < SLOTS_MAX,
                forall|j: int| 0 <= j < i ==> self.by_tid().contains_key((#[trigger] codecs@[j])@.0.unwrap()),
                forall|t: TypeTag| #[trigger] old(self).by_tid().contains_key(t) ==> self.by_tid().contains_key(t)
                    && self.by_tid()[t] == old(self).by_tid()[t],
                forall|n: Seq<char>| #[trigger] old(self).by_name().contains_key(n)
                    ==> self.by_name().contains_key(n) && self.by_name()[n] == old(self).by_name()[n],
                self.by_tid().dom() == old(self).by_tid().dom() + tids_of(p, i as int),
            decreases codecs.len() - i,
        {
            let ghost before = *self;
            let c = codecs[i].duplicate();
            assert(p[i as int] == codecs@[i as int]@);
            assert(c@.0 is Some);
            let ghost t = c@.0.unwrap();
            let _ = self.register_message(c);
            proof {
                assert(self.by_tid().contains_key(t));
                assert(self.by_tid().dom() =~= before.by_tid().dom().insert(t));
                assert(tids_of(p, i + 1) =~= tids_of(p, i as int).insert(t)) by {
                    assert forall|t2: TypeTag| tids_of(p, i + 1).contains(t2) <==> #[trigger] tids_of(p, i as int).insert(t).contains(t2) by {
                        if t2 == t {
                            assert(p[i as int].0 == Some(t2));
                        }
                        if tids_of(p, i + 1).contains(t2) && t2 != t {
                            let j = choose|j: int| 0 <= j < i + 1 && 0 <= j < p.len() && p[j].0 == Some(t2);
                            assert(j != i);
                        }
                    }
                }
                assert forall|j: int| 0 <= j < i + 1 implies self.by_tid().contains_key((#[trigger] codecs@[j])@.0.unwrap()) by {
                    if j < i {
                        assert(before.by_tid().contains_key(codecs@[j]@.0.unwrap()));
                    }
                }
            }
            i = i + 1;
        }
    }

    /// Registers a protocol under a name that is not taken, and indexes the
    /// types of its codecs (those indexed before keep their keys).
    pub fn register_protocol(&mut self, name: String, protocol: Arc<Protocol>) -> (r: Result<(), RegisterProtocolErrorKind>)
        requires
            old(self).wf(),
            codecs_wf((*protocol)@),
            all_known((*protocol)@),
            old(self).codec_count() + (*protocol)@.len() < SLOTS_MAX,
        ensures
            final(self).wf(),
            old(self).protocols().contains_key(name@) ==> {
                &&& r == Err::<(), RegisterProtocolErrorKind>(RegisterProtocolErrorKind::DuplicateProtocolName)
                &&& final(self).protocols() == old(self).protocols()
                &&& final(self).codec_count() == old(self).codec_count()
                &&& final(self).codecs() == old(self).codecs()
                &&& final(self).by_name() == old(self).by_name()
                &&& final(self).by_tid() == old(self).by_tid()
            },
            !old(self).protocols().contains_key(name@) ==> {
                &&& r is Ok
                &&& final(self).protocols() == old(self).protocols().insert(name@, (*protocol)@)
                &&& final(self).codec_count() <= old(self).codec_count() + (*protocol)@.len()
                &&& final(self).by_tid().dom() == old(self).by_tid().dom() + tids_of((*protocol)@, (*protocol)@.len() as int)
                &&& forall|t: TypeTag| #[trigger] old(self).by_tid().contains_key(t) ==> final(self).by_tid()[t] == old(self).by_tid()[t]
                &&& forall|n: Seq<char>| #[trigger] old(self).by_name().contains_key(n)
                    ==> final(self).by_name().contains_key(n) && final(self).by_name()[n] == old(self).by_name()[n]
            },
    {
        let ghost ps = protocols_seq(self.protocols@);
        match find_protocol(&self.protocols, &name) {
            Some(i) => {
                proof {
                    lemma_assoc_index(ps, i as int);
                }
                return Err(RegisterProtocolErrorKind::DuplicateProtocolName);
            },
            None => {
                proof {
                    assert forall|j: int| 0 <= j < ps.len() implies ps[j].0 != name@ by {
                        assert(ps[j].0 == self.protocols@[j].0@);
                    }
                    lemma_assoc_absent(ps, name@);
                }
            },
        }
        let outbound = protocol.outbound_types();
        self.register_codecs(&outbound);
        let ghost after_outbound = *self;
        let inbound = protocol.inbound_types();
        assert(outbound.len() == crate::codec::codec_views(outbound@).len());
        assert(inbound.len() == crate::codec::codec_views(inbound@).len());
        let mut i: usize = 0;
        while i < inbound.len()
            invariant
                0 <= i <= inbound.len(),
                crate::codec::codec_views(inbound@) == (*protocol)@,
                crate::codec::codec_views(outbound@) == (*protocol)@,
                outbound.len() == inbound.len(),
                all_known((*protocol)@),
                self.wf(),
                self.protocols() == after_outbound.protocols(),
                self.codecs() == after_outbound.codecs(),
                self.by_name() == after_outbound.by_name(),
                self.by_tid() == after_outbound.by_tid(),
                after_outbound.codec_count() < SLOTS_MAX,
                forall|j: int| 0 <= j < outbound.len() ==> self.by_tid().contains_key((#[trigger] outbound@[j])@.0.unwrap()),
            decreases inbound.len() - i,
        {
            let c = inbound[i].duplicate();
            proof {
                assert(crate::codec::codec_views(inbound@)[i as int] == crate::codec::codec_views(outbound@)[i as int]);
                assert(outbound@[i as int]@ == inbound@[i as int]@);
                assert(self.by_tid().contains_key(outbound@[i as int]@.0.unwrap()));
                assert((*protocol)@[i as int].0 is Some);
            }
            let _ = self.register_message(c);
            i = i + 1;
        }
        let ghost before_insert = *self;
        let ghost ps2 = protocols_seq(self.protocols@);
        let ghost pv = (*protocol)@;
        self.protocols.push((name, protocol));
        proof {
            assert(!assoc_view(ps2).contains_key(name@));
            lemma_assoc_push(ps2, name@, pv);
            assert(protocols_seq(self.protocols@) =~= ps2.push((name@, pv)));
            assert forall|n: Seq<char>| #[trigger] self.protocols().contains_key(n) implies codecs_wf(self.protocols()[n]) by {
                if n != name@ {
                    assert(before_insert.protocols().contains_key(n));
                }
            }
        }
        Ok(())
    }

    /// Unregisters a protocol, unless a handle to it is held elsewhere.
    pub fn unregister_protocol(&mut self, name: String) -> (r: Result<(), UnregisterProtocolErrorKind>)
        requires
            old(self).wf(),
        ensures
            final(self).wf(),
            final(self).codecs() == old(self).codecs(),
            final(self).by_name() == old(self).by_name(),
            final(self).by_tid() == old(self).by_tid(),
            !old(self).protocols().contains_key(name@) ==> r == Err::<(), UnregisterProtocolErrorKind>(
                UnregisterProtocolErrorKind::NoProtocol,
            ) && final(self).protocols() == old(self).protocols(),
            old(self).protocols().contains_key(name@) ==> {
                ||| r is Ok && final(self).protocols() == old(self).protocols().remove(name@)
                ||| r == Err::<(), UnregisterProtocolErrorKind>(UnregisterProtocolErrorKind::ProtocolInUse)
                    && final(self).protocols() == old(self).protocols()
            },
    {
        let ghost ps = protocols_seq(self.protocols@);
        let ghost old_protocols = self.protocols@;
        match find_protocol(&self.protocols, &name) {
            None => {
                proof {
                    assert forall|j: int| 0 <= j < ps.len() implies ps[j].0 != name@ by {
                        assert(ps[j].0 == self.protocols@[j].0@);
                    }
                    lemma_assoc_absent(ps, name@);
                }
                Err(UnregisterProtocolErrorKind::NoProtocol)
            },
            Some(i) => {
                proof {
                    lemma_assoc_index(ps, i as int);
                }
                let (k, mut p) = self.protocols.remove(i);
                let ghost pv = (*p)@;
                if protocol_is_unshared(&mut p) {
                    proof {
                        lemma_assoc_remove(ps, i as int);
                        assert(protocols_seq(self.protocols@) =~= ps.remove(i as int));
                        assert forall|n: Seq<char>| #[trigger] self.protocols().contains_key(n) implies codecs_wf(self.protocols()[n]) by {
                            assert(old(self).protocols().contains_key(n));
                        }
                        assert(self.codecs() == old(self).codecs());
                        assert(self.by_name() == old(self).by_name());
                        assert(self.by_tid() == old(self).by_tid());
                    }
                    Ok(())
                } else {
                    self.protocols.insert(i, (k, p));
                    proof {
                        assert(self.protocols@[i as int].0 == old_protocols[i as int].0);
                        assert(protocols_seq(self.protocols@) =~= ps);
                        assert(self.protocols() == old(self).protocols());
                        assert(self.codecs() == old(self).codecs());
                        assert(self.by_name() == old(self).by_name());
                        assert(self.by_tid() == old(self).by_tid());

                    }
                    Err(UnregisterProtocolErrorKind::ProtocolInUse)
                }
            },
        }
    }

    /// A handle to the protocol registered under the name, where there is one.
    pub fn protocol_by_name(&self, name: &String) -> (r: Option<Arc<Protocol>>)
        requires
            self.wf(),
        ensures
            r matches Some(p) ==> self.protocols().contains_key(name@) && (*p)@ == self.protocols()[name@],
            r is None ==> !self.protocols().contains_key(name@),
    {
        let ghost ps = protocols_seq(self.protocols@);
        match find_protocol(&self.protocols, name) {
            Some(i) => {
                proof {
                    lemma_assoc_index(ps, i as int);
                }
                Some(protocol_handle(&self.protocols[i].1))
            },
            None => {
                proof {
                    assert forall|j: int| 0 <= j < ps.len() implies ps[j].0 != name@ by {
                        assert(ps[j].0 == self.protocols@[j].0@);
                    }
                    lemma_assoc_absent(ps, name@);
                }
                None
            },
        }
    }
}

/// Registering a message type is idempotent: the same codec registered twice
/// gets the same key, and the second time changes nothing.
pub proof fn law_register_message_idempotent(
    r0: ProtocolRegistry,
    r1: ProtocolRegistry,
    r2: ProtocolRegistry,
    c: CodecView,
    k1: u64,
    k2: u64,
)
    requires
        message_registered(r0, r1, c, k1),
        message_registered(r1, r2, c, k2),
    ensures
        k2 == k1,
        r2.protocols() == r1.protocols(),
        r2.codecs() == r1.codecs(),
        r2.by_name() == r1.by_name(),
        r2.by_tid() == r1.by_tid(),
{
}

/// A known codec takes over the key of the opaque codec of its name: the
/// message type keeps one local key once its type becomes known.
pub proof fn law_known_takes_over_opaque_key(
    r0: ProtocolRegistry,
    r1: ProtocolRegistry,
    r2: ProtocolRegistry,
    name: Seq<char>,
    t: TypeTag,
    k1: u64,
    k2: u64,
)
    requires
        !r0.by_tid().contains_key(t),
        message_registered(r0, r1, (None, name), k1),
        message_registered(r1, r2, (Some(t), name), k2),
    ensures
        k2 == k1,
        r2.by_name()[name] == k1,
        r2.by_tid()[t] == k1,
        r2.codecs()[k1] == (Some(t), name),
{
}

/// Unregistering undoes registering: a protocol registered under a free name,
/// once unregistered, leaves the protocols as they were before.
pub proof fn law_protocol_unregister_undoes_register(
    before: Map<Seq<char>, Seq<CodecView>>,
    name: Seq<char>,
    protocol: Seq<CodecView>,
)
    requires
        !before.contains_key(name),
    ensures
        before.insert(name, protocol).contains_key(name),
        before.insert(name, protocol).remove(name) == before,
{
    assert(before.insert(name, protocol).remove(name) =~= before);
}

} // verus!
