//! Codecs of remote subnets: named sets of message types that a link to a
//! remote subnet can carry, each type known by its name.

use std::marker::PhantomData;
use std::sync::Arc;

use vstd::prelude::*;

use crate::assoc::{
    assoc_view, keys_unique, lemma_assoc_absent, lemma_assoc_index, lemma_assoc_push,
    lemma_assoc_update,
};
use crate::codec::TypeTag;

verus! {

/// A serialization format of a remote-subnet link.
#[derive(Debug, Clone, Copy, PartialEq, Eq, Structural, Hash)]
pub enum SerdeFormat {
    Json,
    Bincode,
    Rmp,
}

/// The JSON encoding of messages of type `T`.
pub struct SerdeJsonCodec<T>(pub PhantomData<T>);

/// The bincode encoding of messages of type `T`.
pub struct SerdeBincodeCodec<T>(pub PhantomData<T>);

/// The MessagePack encoding of messages of type `T`.
pub struct SerdeRmpCodec<T>(pub PhantomData<T>);

/// A message type that a codec supports.
#[derive(Debug, Clone, Copy, PartialEq, Eq, Structural)]
pub struct SupportedType {
    supported_type_id: TypeTag,
}

impl SupportedType {
    pub fn new(supported_type_id: TypeTag) -> (r: Self)
        ensures
            r.type_id() == supported_type_id,
    {
        SupportedType { supported_type_id }
    }

    pub closed spec fn type_id(&self) -> TypeTag {
        self.supported_type_id
    }

    /// The Rust type of the message.
    pub fn supported_type_id(&self) -> (r: TypeTag)
        ensures
            r == self.type_id(),
    {
        self.supported_type_id
    }
}

/// The entries of a codec as name-type pairs.
pub open spec fn type_entries(s: Seq<(String, SupportedType)>) -> Seq<(Seq<char>, TypeTag)> {
    Seq::new(s.len(), |i: int| (s[i].0@, s[i].1.type_id()))
}

/// A codec: its message types by name.
pub struct Codec {
    types: Vec<(String, SupportedType)>,
}

impl View for Codec {
    type V = Map<Seq<char>, TypeTag>;

    closed spec fn view(&self) -> Map<Seq<char>, TypeTag> {
        assoc_view(type_entries(self.types@))
    }
}

fn find_type(v: &Vec<(String, SupportedType)>, name: &str) -> (r: Option<usize>)
    ensures
        r matches Some(i) ==> i < v.len() && v@[i as int].0@ == name@,
        r is None ==> forall|i: int| 0 <= i < v.len() ==> v@[i].0@ != name@,
{
    let owned = name.to_owned();
    let mut i: usize = 0;
    while i < v.len()
        invariant
            0 <= i <= v.len(),
            owned@ == name@,
            forall|j: int| 0 <= j < i ==> v@[j].0@ != name@,
        decreases v.len() - i,
    {
        if v[i].0 == owned {
            return Some(i);
        }
        i = i + 1;
    }
    None
}

impl Codec {
    pub closed spec fn wf(&self) -> bool {
        keys_unique(type_entries(self.types@))
    }

    /// A codec without types.
    pub fn new() -> (r: Self)
        ensures
            r.wf(),
            r@ =~= Map::empty(),
    {
        let r = Codec { types: Vec::new() };
        assert(type_entries(r.types@) =~= Seq::empty());
        r
    }

    /// Adds a message type under its name; a type of that name is replaced.
    pub fn add_named_type(&mut self, message_name: String, type_id: TypeTag)
        requires
            old(self).wf(),
        ensures
            final(self).wf(),
            final(self)@ == old(self)@.insert(message_name@, type_id),
    {
        let ghost old_entries = type_entries(self.types@);
        let st = SupportedType::new(type_id);
        match find_type(&self.types, message_name.as_str()) {
            Some(i) => {
                proof {
                    lemma_assoc_update(old_entries, i as int, type_id);
                }
                self.types.set(i, (message_name, st));
                assert(type_entries(self.types@) =~= old_entries.update(i as int, (old_entries[i as int].0, type_id)));
            },
            None => {
                proof {
                    lemma_assoc_absent(old_entries, message_name@);
                    lemma_assoc_push(old_entries, message_name@, type_id);
                }
                let ghost name_view = message_name@;
                self.types.push((message_name, st));
                assert(type_entries(self.types@) =~= old_entries.push((name_view, type_id)));
            },
        }
    }

    /// The codec with a message type added under its name.
    pub fn with_named_type(self, message_name: String, type_id: TypeTag) -> (r: Self)
        requires
            self.wf(),
        ensures
            r.wf(),
            r@ == self@.insert(message_name@, type_id),
    {
        let mut c = self;
        c.add_named_type(message_name, type_id);
        c
    }

    /// Every supported type with its name, each once.
    pub fn supported_types(&self) -> (r: Vec<(TypeTag, String)>)
        requires
            self.wf(),
        ensures
            r.len() == self@.len(),
            forall|i: int| 0 <= i < r.len() ==> #[trigger] self@.contains_key(r@[i].1@) && self@[r@[i].1@] == r@[i].0,
            forall|i: int, j: int| 0 <= i < r.len() && 0 <= j < r.len() && i != j ==> r@[i].1@ != r@[j].1@,
            forall|n: Seq<char>| #[trigger] self@.contains_key(n) ==> exists|i: int| 0 <= i < r.len() && r@[i].1@ == n,
    {
        let ghost e = type_entries(self.types@);
        let mut r: Vec<(TypeTag, String)> = Vec::new();
        let mut i: usize = 0;
        while i < self.types.len()
            invariant
                0 <= i <= self.types.len(),
                e == type_entries(self.types@),
                keys_unique(e),
                r.len() == i,
                forall|j: int| 0 <= j < i ==> (#[trigger] r@[j]).1@ == e[j].0 && r@[j].0 == e[j].1,
            decreases self.types.len() - i,
        {
            r.push((self.types[i].1.supported_type_id(), self.types[i].0.clone()));
            i = i + 1;
        }
        proof {
            assert forall|j: int| 0 <= j < r.len() implies #[trigger] self@.contains_key(r@[j].1@)
                && self@[r@[j].1@] == r@[j].0 by {
                lemma_assoc_index(e, j);
            }
            crate::assoc::lemma_assoc_all(e);
            lemma_entries_len(e);
            assert forall|n: Seq<char>| #[trigger] self@.contains_key(n) implies exists|i: int| 0 <= i < r.len() && r@[i].1@ == n by {
                let j = choose|j: int| 0 <= j < e.len() && e[j].0 == n;
                assert(r@[j].1@ == e[j].0);
            }
        }
        r
    }

    /// The supported type of the given name, if any.
    pub fn select_type(&self, message_name: &str) -> (r: Option<&SupportedType>)
        requires
            self.wf(),
        ensures
            r is Some <==> self@.contains_key(message_name@),
            r matches Some(st) ==> st.type_id() == self@[message_name@],
    {
        match find_type(&self.types, message_name) {
            Some(i) => {
                proof {
                    lemma_assoc_index(type_entries(self.types@), i as int);
                }
                Some(&self.types[i].1)
            },
            None => {
                proof {
                    lemma_assoc_absent(type_entries(self.types@), message_name@);
                }
                None
            },
        }
    }
}

/// A map by name after inserting each of `adds` in turn, from `m`: the
/// types of a codec after a sequence of `with_named_type`, or the codecs of a
/// registry after a sequence of `add_codec`.
pub open spec fn inserted_in_turn<V>(m: Map<Seq<char>, V>, adds: Seq<(Seq<char>, V)>) -> Map<Seq<char>, V>
    decreases adds.len(),
{
    if adds.len() == 0 {
        m
    } else {
        inserted_in_turn(m, adds.drop_last()).insert(adds.last().0, adds.last().1)
    }
}

/// The value added last under `name` among `adds`, if any.
pub open spec fn last_added<V>(adds: Seq<(Seq<char>, V)>, name: Seq<char>) -> Option<V>
    decreases adds.len(),
{
    if adds.len() == 0 {
        None
    } else if adds.last().0 == name {
        Some(adds.last().1)
    } else {
        last_added(adds.drop_last(), name)
    }
}

/// After a sequence of additions by name, a name is known exactly where it
/// was before or something was added under it; it then holds what was added
/// last under it, and a name that nothing was added under keeps its value.
/// So a codec keeps the last type added under each name, a registry the last
/// codec added under each name, and from an empty start only the added names
/// are known.
pub proof fn law_last_added_is_kept<V>(m: Map<Seq<char>, V>, adds: Seq<(Seq<char>, V)>, name: Seq<char>)
    ensures
        inserted_in_turn(m, adds).contains_key(name) <==> (m.contains_key(name) || last_added(adds, name) is Some),
        last_added(adds, name) matches Some(v) ==> inserted_in_turn(m, adds)[name] == v,
        last_added(adds, name) is None && m.contains_key(name) ==> inserted_in_turn(m, adds)[name] == m[name],
    decreases adds.len(),
{
    if adds.len() > 0 {
        law_last_added_is_kept(m, adds.drop_last(), name);
    }
}

/// The listing of a codec's supported types, for a codec built from no
/// types by adding `adds` in turn (what `supported_types` ensures of it): it
/// names each added name once, with the type added last under it, and no
/// other name.
pub proof fn law_supported_types_after_adds(adds: Seq<(Seq<char>, TypeTag)>, r: Seq<(TypeTag, String)>)
    requires
        forall|i: int| 0 <= i < r.len() ==> #[trigger] inserted_in_turn(Map::empty(), adds).contains_key(r[i].1@)
            && inserted_in_turn(Map::empty(), adds)[r[i].1@] == r[i].0,
        forall|i: int, j: int| 0 <= i < r.len() && 0 <= j < r.len() && i != j ==> r[i].1@ != r[j].1@,
        forall|n: Seq<char>| #[trigger] inserted_in_turn(Map::empty(), adds).contains_key(n)
            ==> exists|i: int| 0 <= i < r.len() && r[i].1@ == n,
    ensures
        forall|n: Seq<char>| #[trigger] last_added(adds, n) is Some <==> exists|i: int| 0 <= i < r.len() && r[i].1@ == n,
        forall|i: int| 0 <= i < r.len() ==> #[trigger] last_added(adds, r[i].1@) == Some(r[i].0),
{
    let m = inserted_in_turn(Map::<Seq<char>, TypeTag>::empty(), adds);
    assert forall|n: Seq<char>| #[trigger] last_added(adds, n) is Some <==> exists|i: int| 0 <= i < r.len() && r[i].1@ == n by {
        law_last_added_is_kept(Map::<Seq<char>, TypeTag>::empty(), adds, n);
        if exists|i: int| 0 <= i < r.len() && r[i].1@ == n {
            let i = choose|i: int| 0 <= i < r.len() && r[i].1@ == n;
            assert(m.contains_key(r[i].1@));
        }
    }
    assert forall|i: int| 0 <= i < r.len() implies #[trigger] last_added(adds, r[i].1@) == Some(r[i].0) by {
        law_last_added_is_kept(Map::<Seq<char>, TypeTag>::empty(), adds, r[i].1@);
        assert(m.contains_key(r[i].1@));
    }
}

/// A list with distinct keys has as many entries as its map has keys.
proof fn lemma_entries_len<K, V>(s: Seq<(K, V)>)
    requires
        keys_unique(s),
    ensures
        assoc_view(s).len() == s.len(),
    decreases s.len(),
{
    if s.len() == 0 {
        assert(assoc_view(s).dom() =~= Set::empty());
    } else {
        let t = s.drop_last();
        let last = s.last();
        assert(keys_unique(t));
        lemma_entries_len(t);
        crate::assoc::lemma_assoc_all(t);
        assert(!assoc_view(t).contains_key(last.0)) by {
            if assoc_view(t).contains_key(last.0) {
                let j = choose|j: int| 0 <= j < t.len() && t[j].0 == last.0;
                assert(s[j].0 == s[s.len() - 1].0);
            }
        }
        lemma_assoc_push(t, last.0, last.1);
        assert(t.push(last) =~= s);
    }
}

/// The codecs known to a node, by name.
pub struct CodecRegistry {
    codecs: Vec<(String, Arc<Codec>)>,
}

pub open spec fn codec_entries(s: Seq<(String, Arc<Codec>)>) -> Seq<(Seq<char>, Map<Seq<char>, TypeTag>)> {
    Seq::new(s.len(), |i: int| (s[i].0@, (*s[i].1)@))
}

impl View for CodecRegistry {
    type V = Map<Seq<char>, Map<Seq<char>, TypeTag>>;

    closed spec fn view(&self) -> Map<Seq<char>, Map<Seq<char>, TypeTag>> {
        assoc_view(codec_entries(self.codecs@))
    }
}

impl CodecRegistry {
    pub closed spec fn wf(&self) -> bool {
        &&& keys_unique(codec_entries(self.codecs@))
        &&& forall|i: int| 0 <= i < self.codecs@.len() ==> (*#[trigger] self.codecs@[i].1).wf()
    }

    /// No codecs.
    pub fn new() -> (r: Self)
        ensures
            r.wf(),
            r@ =~= Map::empty(),
    {
        let r = CodecRegistry { codecs: Vec::new() };
        assert(codec_entries(r.codecs@) =~= Seq::empty());
        r
    }

    /// The codec of the given name, if any.
    pub fn get_codec(&self, name: &str) -> (r: Option<&Codec>)
        requires
            self.wf(),
        ensures
            r is Some <==> self@.contains_key(name@),
            r matches Some(c) ==> c@ == self@[name@] && c.wf(),
    {
        let owned = name.to_owned();
        let mut i: usize = 0;
        while i < self.codecs.len()
            invariant
                0 <= i <= self.codecs.len(),
                owned@ == name@,
                self.wf(),
                forall|j: int| 0 <= j < i ==> self.codecs@[j].0@ != name@,
            decreases self.codecs.len() - i,
        {
            if self.codecs[i].0 == owned {
                proof {
                    lemma_assoc_index(codec_entries(self.codecs@), i as int);
                }
                let c: &Codec = &self.codecs[i].1;
                return Some(c);
            }
            i = i + 1;
        }
        proof {
            lemma_assoc_absent(codec_entries(self.codecs@), name@);
        }
        None
    }

    /// Adds a codec under a name; a codec of that name is replaced.
    pub fn add_codec(&mut self, codec_name: &str, codec: Codec) -> (r: &mut Self)
        requires
            old(self).wf(),
            codec.wf(),
        ensures
            (*r).wf(),
            (*r)@ == old(self)@.insert(codec_name@, codec@),
            *final(self) == *final(r),
    {
        let ghost old_entries = codec_entries(self.codecs@);
        let ghost cv = codec@;
        let name = codec_name.to_owned();
        let mut i: usize = 0;
        while i < self.codecs.len()
            invariant
                0 <= i <= self.codecs.len(),
                name@ == codec_name@,
                old_entries == codec_entries(self.codecs@),
                self.codecs@ == old(self).codecs@,
                self.wf(),
                cv == codec@,
                codec.wf(),
                forall|j: int| 0 <= j < i ==> self.codecs@[j].0@ != name@,
            decreases self.codecs.len() - i,
        {
            if self.codecs[i].0 == name {
                proof {
                    lemma_assoc_update(old_entries, i as int, cv);
                    assert(old_entries[i as int].0 == codec_name@);
                }
                let ghost before = self.codecs@;
                self.codecs.set(i, (name, Arc::new(codec)));
                proof {
                    assert(codec_entries(self.codecs@) =~= old_entries.update(i as int, (old_entries[i as int].0, cv)));
                    assert forall|j: int| 0 <= j < self.codecs@.len() implies (*#[trigger] self.codecs@[j].1).wf() by {
                        if j != i {
                            assert(self.codecs@[j] == before[j]);
                        }
                    }
                    assert(assoc_view(old_entries) == old(self)@);
                    assert(self@ == assoc_view(old_entries).insert(codec_name@, cv));
                }
                return self;
            }
            i = i + 1;
        }
        proof {
            lemma_assoc_absent(old_entries, name@);
            lemma_assoc_push(old_entries, name@, cv);
        }
        let ghost before = self.codecs@;
        let ghost nv = name@;
        self.codecs.push((name, Arc::new(codec)));
        proof {
            assert(codec_entries(self.codecs@) =~= old_entries.push((nv, cv)));
            assert forall|j: int| 0 <= j < self.codecs@.len() implies (*#[trigger] self.codecs@[j].1).wf() by {
                if j < before.len() {
                    assert(self.codecs@[j] == before[j]);
                }
            }
        }
        self
    }
}

} // verus!
