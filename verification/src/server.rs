//! A server actor assembled from a behaviour and the list of messages and
//! requests it handles, and the outcome of handling one of them.

use std::collections::HashMap;
use std::marker::PhantomData;
use std::ops::ControlFlow;

use vstd::prelude::*;

use crate::address::Address;
use crate::codec::TypeTag;

verus! {

/// A message type that the server handles.
#[derive(Debug)]
pub struct Msg<M>(PhantomData<M>);

/// A request type that the server answers, with its response type.
#[derive(Debug)]
pub struct Req<Rq, Rs>(PhantomData<(Rq, Rs)>);

/// A server: its behaviour, and in `H` the handled messages and requests,
/// as nested pairs.
#[derive(Debug)]
pub struct Server<Ctx, B, H> {
    behaviour: B,
    pd: PhantomData<(Ctx, H)>,
}

impl<Ctx, B, H> Server<Ctx, B, H> {
    pub closed spec fn state(&self) -> B {
        self.behaviour
    }
}

/// A server without behaviour that handles nothing.
pub fn new<Ctx>() -> (r: Server<Ctx, (), ()>)
    ensures
        r.state() == (),
{
    Server { behaviour: (), pd: PhantomData }
}

impl<Ctx> Server<Ctx, (), ()> {
    /// The server with its behaviour.
    pub fn behaviour<S>(self, behaviour: S) -> (r: Server<Ctx, S, ()>)
        ensures
            r.state() == behaviour,
    {
        let Server { behaviour: _, pd } = self;
        Server { behaviour, pd }
    }
}

impl<Ctx, B, H> Server<Ctx, B, H> {
    /// The server that also handles messages of type `M`.
    pub fn msg<M>(self) -> (r: Server<Ctx, B, (H, Msg<M>)>)
        ensures
            r.state() == self.state(),
    {
        let Server { behaviour: state, pd: _ } = self;
        Server { behaviour: state, pd: PhantomData }
    }

    /// The server that also answers requests of type `Rq` with `Rs`.
    pub fn req<Rq, Rs>(self) -> (r: Server<Ctx, B, (H, Req<Rq, Rs>)>)
        ensures
            r.state() == self.state(),
    {
        let Server { behaviour: state, pd: _ } = self;
        Server { behaviour: state, pd: PhantomData }
    }
}

/// What a handler does with the message or request it handled.
pub enum Action<Rq, Rs> {
    Nothing,
    Forward { to: Address, request: Rq },
    Reply { response: Rs },
}

/// The outcome of a handler: its action, and whether the server goes on.
pub struct Outcome<Rq, Rs> {
    action: Action<Rq, Rs>,
    after: ControlFlow<()>,
}

impl<Rq, Rs> Outcome<Rq, Rs> {
    pub closed spec fn action(&self) -> Action<Rq, Rs> {
        self.action
    }

    pub closed spec fn after(&self) -> ControlFlow<()> {
        self.after
    }

    /// Forward the request to `to`, and go on.
    pub fn forward(to: Address, request: Rq) -> (r: Self)
        ensures
            r.action() == (Action::<Rq, Rs>::Forward { to, request }),
            r.after() == ControlFlow::<()>::Continue(()),
    {
        Outcome { action: Action::Forward { to, request }, after: ControlFlow::Continue(()) }
    }

    /// Reply with `response`, and go on.
    pub fn reply(response: Rs) -> (r: Self)
        ensures
            r.action() == (Action::<Rq, Rs>::Reply { response }),
            r.after() == ControlFlow::<()>::Continue(()),
    {
        Outcome { action: Action::Reply { response }, after: ControlFlow::Continue(()) }
    }

    /// Do nothing, and go on.
    pub fn no_reply() -> (r: Self)
        ensures
            r.action() == Action::<Rq, Rs>::Nothing,
            r.after() == ControlFlow::<()>::Continue(()),
    {
        Outcome { action: Action::Nothing, after: ControlFlow::Continue(()) }
    }

    /// The same action, after which the server stops.
    pub fn then_stop(self) -> (r: Self)
        ensures
            r.action() == self.action(),
            r.after() == ControlFlow::<()>::Break(()),
    {
        Outcome { after: ControlFlow::Break(()), ..self }
    }

    /// Whether the server stops after this outcome.
    pub fn stops(&self) -> (r: bool)
        ensures
            r == (self.after() is Break),
    {
        match self.after {
            ControlFlow::Break(()) => true,
            ControlFlow::Continue(()) => false,
        }
    }
}

/// The handlers of a server by the type of message they take (by the value
/// of its tag): the first handler registered for a type keeps it.
pub struct Handlers {
    by_type: HashMap<u64, usize>,
}

impl View for Handlers {
    type V = Map<u64, usize>;

    closed spec fn view(&self) -> Map<u64, usize> {
        self.by_type@
    }
}

impl Handlers {
    pub closed spec fn wf(&self) -> bool {
        self.by_type@.dom().finite()
    }

    /// No handlers.
    pub fn new() -> (r: Self)
        ensures
            r.wf(),
            r@ =~= Map::empty(),
    {
        broadcast use vstd::std_specs::hash::group_hash_axioms;

        Handlers { by_type: HashMap::new() }
    }

    /// The handler of messages of type `tag`, if any.
    pub fn handler_for(&self, tag: TypeTag) -> (r: Option<usize>)
        requires
            self.wf(),
        ensures
            r is Some <==> self@.contains_key(tag.0),
            r matches Some(h) ==> self@[tag.0] == h,
    {
        broadcast use vstd::std_specs::hash::group_hash_axioms;

        match self.by_type.get(&tag.0) {
            Some(h) => Some(*h),
            None => None,
        }
    }

    /// Registers `handler` for messages of type `tag`; a type that has a
    /// handler keeps it, and the registration is refused (`false`).
    pub fn register(&mut self, tag: TypeTag, handler: usize) -> (r: bool)
        requires
            old(self).wf(),
        ensures
            final(self).wf(),
            r == !old(self)@.contains_key(tag.0),
            r ==> final(self)@ == old(self)@.insert(tag.0, handler),
            !r ==> final(self)@ == old(self)@,
    {
        broadcast use vstd::std_specs::hash::group_hash_axioms;

        if self.handler_for(tag).is_some() {
            return false;
        }
        self.by_type.insert(tag.0, handler);
        true
    }
}

/// The handlers after registering, in order, handler `i` for the type
/// `tags[i]`: a type keeps the first handler registered for it.
pub open spec fn handlers_after(tags: Seq<u64>) -> Map<u64, usize>
    decreases tags.len(),
{
    if tags.len() == 0 {
        Map::empty()
    } else {
        let m = handlers_after(tags.drop_last());
        if m.contains_key(tags.last()) {
            m
        } else {
            m.insert(tags.last(), (tags.len() - 1) as usize)
        }
    }
}

/// The values of a list of tags.
pub open spec fn tag_values(tags: Seq<TypeTag>) -> Seq<u64> {
    Seq::new(tags.len(), |i: int| tags[i].0)
}

impl Handlers {
    /// The handlers of a server that handles, in order, messages of the types
    /// `tags`: handler `i` handles `tags[i]`, unless an earlier handler took
    /// that type.
    pub fn register_all(tags: &Vec<TypeTag>) -> (r: Handlers)
        ensures
            r.wf(),
            r@ == handlers_after(tag_values(tags@)),
    {
        let mut h = Handlers::new();
        let mut i: usize = 0;
        while i < tags.len()
            invariant
                0 <= i <= tags.len(),
                h.wf(),
                h@ == handlers_after(tag_values(tags@).take(i as int)),
            decreases tags.len() - i,
        {
            proof {
                assert(tag_values(tags@).take(i + 1).drop_last() =~= tag_values(tags@).take(i as int));
            }
            h.register(tags[i], i);
            i = i + 1;
        }
        assert(tag_values(tags@).take(i as int) =~= tag_values(tags@));
        h
    }
}

/// Registering handlers in order, every type that some handler takes gets
/// the first handler registered for it, and no other type gets one.
pub proof fn law_first_handler_keeps_its_type(tags: Seq<u64>, t: u64)
    requires
        tags.len() <= usize::MAX,
    ensures
        handlers_after(tags).contains_key(t) <==> tags.contains(t),
        handlers_after(tags).contains_key(t) ==> {
            let h = handlers_after(tags)[t] as int;
            &&& 0 <= h < tags.len()
            &&& tags[h] == t
            &&& forall|j: int| 0 <= j < h ==> tags[j] != t
        },
    decreases tags.len(),
{
    if tags.len() > 0 {
        let init = tags.drop_last();
        law_first_handler_keeps_its_type(init, t);
        if handlers_after(init).contains_key(t) {
            let h = handlers_after(init)[t] as int;
            assert(init[h] == tags[h]);
            assert(tags.contains(t));
            assert forall|j: int| 0 <= j < h implies tags[j] != t by {
                assert(init[j] == tags[j]);
            }
        } else if tags.last() == t {
            assert(tags[tags.len() - 1] == t);
            assert forall|j: int| 0 <= j < tags.len() - 1 implies tags[j] != t by {
                if tags[j] == t {
                    assert(init[j] == t);
                    assert(init.contains(t));
                }
            }
        } else {
            if tags.contains(t) {
                let j = choose|j: int| 0 <= j < tags.len() && tags[j] == t;
                assert(init[j] == t);
            }
        }
    }
}

} // verus!
