//! Message codecs and the dispatcher that picks a codec by message type.

use std::marker::PhantomData;

use vstd::prelude::*;

use crate::address::Address;
use crate::assoc::{assoc_view, keys_unique, lemma_assoc_absent, lemma_assoc_index, lemma_assoc_push};

verus! {

/// The JSON codec of the message type `M`.
#[derive(Debug)]
pub struct SerdeJson<M>(PhantomData<M>);

impl<M> SerdeJson<M> {
    /// The codec: a value without content, as there is one for each type.
    pub fn new() -> Self {
        SerdeJson(PhantomData)
    }
}

impl<M> Default for SerdeJson<M> {
    fn default() -> Self {
        SerdeJson(PhantomData)
    }
}

/// An encoded message: its recipient, the key of its type, and its body.
#[derive(Debug, Clone, PartialEq, Eq)]
pub struct Packet<K, B> {
    pub to: Address,
    pub type_key: K,
    pub message: B,
}

/// Why a backend was not added to a dispatcher: one of its message types
/// has a backend already. The backend is handed back.
#[derive(Debug)]
pub enum DispatcherBuildError<K, T> {
    DuplicateKey(K, T),
}

/// Picks the backend of a message by its type name.
pub struct Dispatcher<B> {
    backends: Vec<B>,
    by_key: Vec<(String, usize)>,
}

pub open spec fn key_entries(s: Seq<(String, usize)>) -> Seq<(Seq<char>, usize)> {
    Seq::new(s.len(), |i: int| (s[i].0@, s[i].1))
}

/// One of the first `n` of `keys` is `k`.
pub open spec fn lists_upto(keys: Seq<String>, n: int, k: Seq<char>) -> bool {
    exists|j: int| 0 <= j < n && #[trigger] keys[j]@ == k
}

/// `after` is `before` with `backend` added for the message types `keys`:
/// it comes last, routes stay, and each of `keys` routes to it.
pub open spec fn added<B>(before: Dispatcher<B>, backend: B, keys: Seq<String>, after: Dispatcher<B>) -> bool {
    &&& after.backends() == before.backends().push(backend)
    &&& forall|k: Seq<char>| #[trigger] after.routes().contains_key(k) <==> (before.routes().contains_key(k)
        || lists_upto(keys, keys.len() as int, k))
    &&& forall|k: Seq<char>| #[trigger] before.routes().contains_key(k) ==> after.routes()[k] == before.routes()[k]
    &&& forall|k: Seq<char>| lists_upto(keys, keys.len() as int, k) ==> #[trigger] after.routes()[k] == before.backends().len()
}

impl<B> Dispatcher<B> {
    pub closed spec fn wf(&self) -> bool {
        &&& keys_unique(key_entries(self.by_key@))
        &&& forall|i: int| 0 <= i < self.by_key@.len() ==> #[trigger] self.by_key@[i].1 < self.backends@.len()
    }

    /// The backend of each message type, by the backend's position.
    pub closed spec fn routes(&self) -> Map<Seq<char>, usize> {
        assoc_view(key_entries(self.by_key@))
    }

    /// The backends, in the order they were added.
    pub closed spec fn backends(&self) -> Seq<B> {
        self.backends@
    }

    /// A dispatcher without backends.
    pub fn new() -> (r: Self)
        ensures
            r.wf(),
            r.routes() =~= Map::empty(),
            r.backends() =~= Seq::<B>::empty(),
    {
        let r = Dispatcher { backends: Vec::new(), by_key: Vec::new() };
        assert(key_entries(r.by_key@) =~= Seq::empty());
        r
    }

    /// Adds a backend for the message types in `keys`. Refused, with the first
    /// key that has a backend already, if any has.
    #[verifier::loop_isolation(false)]
    pub fn add(&mut self, backend: B, keys: Vec<String>) -> (r: Result<(), DispatcherBuildError<String, B>>)
        requires
            old(self).wf(),
        ensures
            final(self).wf(),
            r is Err <==> exists|i: int| 0 <= i < keys.len() && old(self).routes().contains_key(#[trigger] keys@[i]@),
            r matches Err(DispatcherBuildError::DuplicateKey(k, b)) ==> b == backend && *final(self) == *old(self)
                && exists|i: int| 0 <= i < keys.len() && keys@[i]@ == k@ && old(self).routes().contains_key(k@),
            r is Ok ==> added(*old(self), backend, keys@, *final(self)),
    {
        let ghost entries = key_entries(self.by_key@);
        let mut i: usize = 0;
        while i < keys.len()
            invariant
                0 <= i <= keys.len(),
                entries == key_entries(self.by_key@),
                keys_unique(entries),
                forall|j: int| 0 <= j < i ==> !assoc_view(entries).contains_key(#[trigger] keys@[j]@),
            decreases keys.len() - i,
        {
            let mut n: usize = 0;
            while n < self.by_key.len()
                invariant
                    0 <= n <= self.by_key.len(),
                    i < keys.len(),
                    entries == key_entries(self.by_key@),
                    forall|m: int| 0 <= m < n ==> self.by_key@[m].0@ != keys@[i as int]@,
                decreases self.by_key.len() - n,
            {
                if self.by_key[n].0 == keys[i] {
                    let k = keys[i].clone();
                    proof {
                        lemma_assoc_index(entries, n as int);
                        assert(self.by_key@[n as int].0@ == keys@[i as int]@);
                    }
                    return Err(DispatcherBuildError::DuplicateKey(k, backend));
                }
                n = n + 1;
            }
            proof {
                lemma_assoc_absent(entries, keys@[i as int]@);
            }
            i = i + 1;
        }
        let idx = self.backends.len();
        self.backends.push(backend);
        let mut i: usize = 0;
        while i < keys.len()
            invariant
                0 <= i <= keys.len(),
                idx == old(self).backends@.len(),
                self.backends@ == old(self).backends@.push(backend),
                assoc_view(entries) == old(self).routes(),
                keys_unique(key_entries(self.by_key@)),
                forall|m: int| 0 <= m < self.by_key@.len() ==> #[trigger] self.by_key@[m].1 < self.backends@.len(),
                forall|j: int| 0 <= j < keys.len() ==> !assoc_view(entries).contains_key(#[trigger] keys@[j]@),
                forall|k: Seq<char>| #[trigger] assoc_view(key_entries(self.by_key@)).contains_key(k) <==> (assoc_view(entries).contains_key(k)
                    || lists_upto(keys@, i as int, k)),
                forall|k: Seq<char>| #[trigger] assoc_view(entries).contains_key(k) ==> assoc_view(key_entries(self.by_key@))[k] == assoc_view(entries)[k],
                forall|k: Seq<char>| lists_upto(keys@, i as int, k) ==> #[trigger] assoc_view(key_entries(self.by_key@))[k] == idx,
            decreases keys.len() - i,
        {
            let ghost cur = key_entries(self.by_key@);
            let mut n: usize = 0;
            let mut present = false;
            while n < self.by_key.len()
                invariant
                    0 <= n <= self.by_key.len(),
                    i < keys.len(),
                    cur == key_entries(self.by_key@),
                    !present ==> forall|m: int| 0 <= m < n ==> self.by_key@[m].0@ != keys@[i as int]@,
                    present ==> exists|m: int| 0 <= m < self.by_key.len() && self.by_key@[m].0@ == keys@[i as int]@,
                decreases self.by_key.len() - n,
            {
                if self.by_key[n].0 == keys[i] {
                    present = true;
                }
                n = n + 1;
            }
            let ghost kv = keys@[i as int]@;
            if !present {
                proof {
                    lemma_assoc_absent(cur, kv);
                    lemma_assoc_push(cur, kv, idx);
                }
                self.by_key.push((keys[i].clone(), idx));
                proof {
                    assert(key_entries(self.by_key@) =~= cur.push((kv, idx)));
                }
            } else {
                proof {
                    let m = choose|m: int| 0 <= m < self.by_key.len() && self.by_key@[m].0@ == keys@[i as int]@;
                    assert(cur[m].0 == kv);
                    lemma_assoc_index(cur, m);
                    assert(!assoc_view(entries).contains_key(kv));
                }
            }
            proof {
                assert forall|k: Seq<char>| lists_upto(keys@, i + 1, k) <==> lists_upto(keys@, i as int, k) || k == kv by {
                    if lists_upto(keys@, i + 1, k) && k != kv {
                        let j = choose|j: int| 0 <= j < i + 1 && #[trigger] keys@[j]@ == k;
                        assert(j < i);
                    }
                    if k == kv {
                        assert(keys@[i as int]@ == k);
                    }
                    if lists_upto(keys@, i as int, k) {
                        let j = choose|j: int| 0 <= j < i && #[trigger] keys@[j]@ == k;
                        assert(keys@[j]@ == k);
                    }
                }
            }
            i = i + 1;
        }
        Ok(())
    }

    /// The dispatcher with a backend added for the message types in `keys`;
    /// refused, with the backend handed back, where one of them has a backend
    /// already.
    pub fn with(self, backend: B, keys: Vec<String>) -> (r: Result<Self, DispatcherBuildError<String, B>>)
        requires
            self.wf(),
        ensures
            r is Err <==> exists|i: int| 0 <= i < keys.len() && self.routes().contains_key(#[trigger] keys@[i]@),
            r matches Err(DispatcherBuildError::DuplicateKey(k, b)) ==> b == backend
                && exists|i: int| 0 <= i < keys.len() && keys@[i]@ == k@ && self.routes().contains_key(k@),
            r matches Ok(d) ==> d.wf() && added(self, backend, keys@, d),
    {
        let mut d = self;
        match d.add(backend, keys) {
            Ok(()) => Ok(d),
            Err(e) => Err(e),
        }
    }

    /// The backend of a message type, if any.
    pub fn backend_of(&self, key: &String) -> (r: Option<&B>)
        requires
            self.wf(),
        ensures
            r is Some <==> self.routes().contains_key(key@),
            r matches Some(b) ==> *b == self.backends()[self.routes()[key@] as int],
    {
        let mut n: usize = 0;
        while n < self.by_key.len()
            invariant
                0 <= n <= self.by_key.len(),
                self.wf(),
                forall|m: int| 0 <= m < n ==> self.by_key@[m].0@ != key@,
            decreases self.by_key.len() - n,
        {
            if self.by_key[n].0 == *key {
                proof {
                    lemma_assoc_index(key_entries(self.by_key@), n as int);
                }
                let idx = self.by_key[n].1;
                return Some(&self.backends[idx]);
            }
            n = n + 1;
        }
        proof {
            lemma_assoc_absent(key_entries(self.by_key@), key@);
        }
        None
    }
}

/// What a backend made of its input: an output, or the input handed back
/// where the backend does not take it.
#[derive(Debug)]
pub enum Outcome<O, I> {
    Done(O),
    Rejected(I),
}

/// A backend that processes inputs, with a state of its own.
pub trait Process<I> {
    type State;
    type Output;
    type Error;

    fn process(&self, state: &mut Self::State, input: I) -> Result<Outcome<Self::Output, I>, Self::Error>;
}

impl<B> Dispatcher<B> {
    /// Processes `input`, whose message type the selector gave as `key`: the
    /// backend of that type (the one `backend_of` gives) processes it, with
    /// the state, and its answer is returned as it is; an input of no type, or
    /// of a type without a backend, is handed back and the state is untouched.
    pub fn process<I>(&self, key: Option<String>, state: &mut B::State, input: I) -> (r: Result<Outcome<B::Output, I>, B::Error>)
        where
            B: Process<I>,
        requires
            self.wf(),
        ensures
            (key is None || !self.routes().contains_key(key->0@)) ==> (r matches Ok(Outcome::Rejected(i)) && i == input
                && *final(state) == *old(state)),
            key is Some && self.routes().contains_key(key->0@) ==> exists|s: &mut B::State|
                #![trigger call_ensures(B::process, (&self.backends()[self.routes()[key->0@] as int], s, input), r)]
                *s == *old(state) && *final(s) == *final(state)
                && call_ensures(B::process, (&self.backends()[self.routes()[key->0@] as int], s, input), r),
    {
        match key {
            None => Ok(Outcome::Rejected(input)),
            Some(k) => match self.backend_of(&k) {
                None => Ok(Outcome::Rejected(input)),
                Some(b) => b.process(state, input),
            },
        }
    }
}


} // verus!
