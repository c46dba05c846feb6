//! Requests that wait for a protocol to be registered, each with the timer
//! that ends its wait.
//!
//! A wait is entered in two steps: it gets its key, then, once its timer is
//! scheduled (the timer's message names the key), it is armed with the timer
//! and becomes findable by protocol name. Registering the protocol takes all
//! armed waits for it; a timer that fires takes its own wait.

use slotmap::{DefaultKey, Key, KeyData, SlotMap};
use vstd::prelude::*;

use crate::slots::{key_is_issued, SLOTS_MAX};

verus! {

/// A waiting request: the protocol it waits for, the handle to reply to, and
/// its timer once armed.
#[derive(Debug, Clone, PartialEq, Eq)]
pub struct WaitEntry {
    pub protocol: String,
    pub reply_to: u64,
    pub timer_key: Option<u64>,
}

/// A wait as the contracts see it.
pub type WaitView = (Seq<char>, u64, Option<u64>);

impl View for WaitEntry {
    type V = WaitView;

    open spec fn view(&self) -> WaitView {
        (self.protocol@, self.reply_to, self.timer_key)
    }
}

/// A slot map of waits.
#[verifier::external_body]
pub struct WaitSlots {
    inner: SlotMap<DefaultKey, WaitEntry>,
}

/// Names what a slot map of waits holds, by key.
pub uninterp spec fn wait_slots(m: WaitSlots) -> Map<u64, WaitView>;

/// `SlotMap::new`: an empty slot map.
#[verifier::external_body]
fn wait_slots_new() -> (r: WaitSlots)
    ensures
        wait_slots(r) =~= Map::empty(),
{
    WaitSlots { inner: SlotMap::new() }
}

/// `SlotMap::insert`: stores the wait under a key that the map did not hold,
/// and returns that key. It panics when the map holds `SLOTS_MAX` values.
#[verifier::external_body]
fn wait_slots_insert(m: &mut WaitSlots, v: WaitEntry) -> (k: u64)
    requires
        wait_slots(*old(m)).dom().finite(),
        wait_slots(*old(m)).dom().len() < SLOTS_MAX,
    ensures
        !wait_slots(*old(m)).dom().contains(k),
        key_is_issued(k),
        wait_slots(*final(m)) == wait_slots(*old(m)).insert(k, v@),
{
    m.inner.insert(v).data().as_ffi()
}

/// `SlotMap`'s `IndexMut`: replaces the wait under a key that the map holds.
#[verifier::external_body]
fn wait_slots_replace(m: &mut WaitSlots, k: u64, v: WaitEntry)
    requires
        key_is_issued(k),
        wait_slots(*old(m)).dom().contains(k),
    ensures
        wait_slots(*final(m)) == wait_slots(*old(m)).insert(k, v@),
{
    m.inner[DefaultKey::from(KeyData::from_ffi(k))] = v;
}

/// `SlotMap`'s `Index`, with `WaitEntry`'s derived `Clone`: a copy of the
/// wait under a key that the map holds.
#[verifier::external_body]
fn wait_slots_get(m: &WaitSlots, k: u64) -> (r: WaitEntry)
    requires
        key_is_issued(k),
        wait_slots(*m).dom().contains(k),
    ensures
        r@ == wait_slots(*m)[k],
{
    m.inner[DefaultKey::from(KeyData::from_ffi(k))].clone()
}

/// `SlotMap::remove`: takes the wait under a key out of the map.
#[verifier::external_body]
fn wait_slots_remove(m: &mut WaitSlots, k: u64) -> (r: Option<WaitEntry>)
    requires
        key_is_issued(k),
    ensures
        wait_slots(*final(m)) == wait_slots(*old(m)).remove(k),
        r is Some <==> wait_slots(*old(m)).dom().contains(k),
        r matches Some(e) ==> e@ == wait_slots(*old(m))[k],
{
    m.inner.remove(DefaultKey::from(KeyData::from_ffi(k)))
}

/// The key of a wait.
#[derive(Debug, Clone, Copy, PartialEq, Eq, Structural)]
pub struct WaitKey(u64);

impl WaitKey {
    pub closed spec fn id(self) -> u64 {
        self.0
    }

    #[verifier::type_invariant]
    closed spec fn issued(self) -> bool {
        key_is_issued(self.0)
    }
}

/// `SlotMap::iter`, with `WaitEntry`'s `Clone`: every key of the map with
/// its wait, each once.
#[verifier::external_body]
fn wait_slots_list(m: &WaitSlots) -> (r: Vec<(u64, WaitEntry)>)
    ensures
        forall|i: int| 0 <= i < r.len() ==> #[trigger] wait_slots(*m).dom().contains(r@[i].0)
            && wait_slots(*m)[r@[i].0] == r@[i].1@,
        forall|k: u64| #[trigger] wait_slots(*m).dom().contains(k) ==> exists|i: int| 0 <= i < r.len() && r@[i].0 == k,
        forall|i: int, j: int| 0 <= i < r.len() && 0 <= j < r.len() && i != j ==> r@[i].0 != r@[j].0,
{
    m.inner.iter().map(|(k, v)| (k.data().as_ffi(), v.clone())).collect()
}

/// The keys of the armed waits for a protocol.
pub open spec fn armed_for(w: Map<u64, WaitView>, protocol: Seq<char>) -> Set<u64> {
    Set::new(|k: u64| w.dom().contains(k) && w[k].0 == protocol && w[k].2 is Some)
}

/// A wait that `take_waiting` took: armed for the protocol, returned with its
/// timer and reply handle, and among the first `n` listed.
pub open spec fn taken_wait(w0: Map<u64, WaitView>, armed: Set<u64>, listed: Seq<(u64, WaitEntry)>, n: int, t: (WaitKey, u64, u64)) -> bool {
    &&& armed.contains(t.0.id())
    &&& w0[t.0.id()].2 == Some(t.1)
    &&& w0[t.0.id()].1 == t.2
    &&& listed_among(listed, n, t.0.id())
}

/// One of the first `n` taken waits has key `k`.
pub open spec fn taken_among(out: Seq<(WaitKey, u64, u64)>, n: int, k: u64) -> bool {
    exists|m: int| 0 <= m < n && #[trigger] out[m].0.id() == k
}

/// The key is listed among the first `n` entries.
pub open spec fn listed_among(s: Seq<(u64, WaitEntry)>, n: int, k: u64) -> bool {
    exists|i: int| 0 <= i < n && #[trigger] s[i].0 == k
}

/// The waits, by key.
pub struct Waitlist {
    entries: WaitSlots,
}

impl Waitlist {
    /// The waits, by key.
    pub closed spec fn waits(&self) -> Map<u64, WaitView> {
        wait_slots(self.entries)
    }

    pub closed spec fn wf(&self) -> bool {
        &&& self.waits().dom().finite()
        &&& forall|k: u64| #[trigger] self.waits().dom().contains(k) ==> key_is_issued(k)
    }

    pub fn new() -> (r: Self)
        ensures
            r.wf(),
            r.waits() =~= Map::empty(),
    {
        Waitlist { entries: wait_slots_new() }
    }

    /// A request starts waiting for `protocol`: the wait gets its key, unarmed.
    pub fn enqueue(&mut self, protocol: String, reply_to: u64) -> (k: WaitKey)
        requires
            old(self).wf(),
            old(self).waits().len() < SLOTS_MAX,
        ensures
            final(self).wf(),
            !old(self).waits().dom().contains(k.id()),
            final(self).waits() == old(self).waits().insert(k.id(), (protocol@, reply_to, None)),
    {
        let id = wait_slots_insert(&mut self.entries, WaitEntry { protocol, reply_to, timer_key: None });
        WaitKey(id)
    }

    /// The wait's timer was scheduled: the wait is armed with it.
    pub fn arm(&mut self, k: WaitKey, timer_key: u64)
        requires
            old(self).wf(),
            old(self).waits().dom().contains(k.id()),
        ensures
            final(self).wf(),
            final(self).waits() == old(self).waits().insert(
                k.id(),
                (old(self).waits()[k.id()].0, old(self).waits()[k.id()].1, Some(timer_key)),
            ),
    {
        proof {
            use_type_invariant(&k);
        }
        let e = wait_slots_get(&self.entries, k.0);
        let armed = WaitEntry { protocol: e.protocol, reply_to: e.reply_to, timer_key: Some(timer_key) };
        wait_slots_replace(&mut self.entries, k.0, armed);
    }

    /// The timer of a wait fired: the wait is taken out, if it is still there,
    /// and returned.
    pub fn timeout(&mut self, k: WaitKey) -> (r: Option<WaitEntry>)
        requires
            old(self).wf(),
        ensures
            final(self).wf(),
            final(self).waits() == old(self).waits().remove(k.id()),
            r is Some <==> old(self).waits().dom().contains(k.id()),
            r matches Some(e) ==> e@ == old(self).waits()[k.id()],
    {
        proof {
            use_type_invariant(&k);
        }
        wait_slots_remove(&mut self.entries, k.0)
    }

    /// The protocol was registered: every armed wait for it is taken out and
    /// returned, with its timer and reply handle, each once.
    #[verifier::loop_isolation(false)]
    pub fn take_waiting(&mut self, protocol: &String) -> (r: Vec<(WaitKey, u64, u64)>)
        requires
            old(self).wf(),
        ensures
            final(self).wf(),
            final(self).waits() == old(self).waits().remove_keys(armed_for(old(self).waits(), protocol@)),
            forall|i: int| 0 <= i < r.len() ==> #[trigger] armed_for(old(self).waits(), protocol@).contains(r@[i].0.id())
                && old(self).waits()[r@[i].0.id()].2 == Some(r@[i].1) && old(self).waits()[r@[i].0.id()].1 == r@[i].2,
            forall|k: u64| #[trigger] armed_for(old(self).waits(), protocol@).contains(k) ==> taken_among(r@, r.len() as int, k),
            forall|i: int, j: int| 0 <= i < r.len() && 0 <= j < r.len() && i != j ==> r@[i].0.id() != r@[j].0.id(),
    {
        let ghost w0 = self.waits();
        let ghost armed = armed_for(w0, protocol@);
        let listed = wait_slots_list(&self.entries);
        let mut out: Vec<(WaitKey, u64, u64)> = Vec::new();
        let mut j: usize = 0;
        while j < listed.len()
            invariant
                0 <= j <= listed.len(),
                self.wf(),
                self.waits() == w0.remove_keys(Set::new(|k: u64| armed.contains(k) && listed_among(listed@, j as int, k))),
                forall|m: int| 0 <= m < out.len() ==> #[trigger] taken_wait(w0, armed, listed@, j as int, out@[m]),
                forall|k: u64| armed.contains(k) && #[trigger] listed_among(listed@, j as int, k) ==> taken_among(out@, out.len() as int, k),
                forall|a: int, b: int| 0 <= a < out.len() && 0 <= b < out.len() && a != b ==> out@[a].0.id() != out@[b].0.id(),
            decreases listed.len() - j,
        {
            let key = listed[j].0;
            let ghost before = self.waits();
            let ghost out_before = out@;
            proof {
                assert(w0.dom().contains(key));
                assert(key_is_issued(key));
                assert forall|k: u64| #[trigger] listed_among(listed@, j + 1, k) <==> listed_among(listed@, j as int, k) || k == key by {
                    if listed_among(listed@, j + 1, k) && k != key {
                        let i = choose|i: int| 0 <= i < j + 1 && #[trigger] listed@[i].0 == k;
                        assert(i < j);
                    }
                    if k == key {
                        assert(listed@[j as int].0 == k);
                    }
                    if listed_among(listed@, j as int, k) {
                        let i = choose|i: int| 0 <= i < j && #[trigger] listed@[i].0 == k;
                        assert(listed@[i].0 == k);
                    }
                }
            }
            let take = match &listed[j].1.timer_key {
                Some(_) => listed[j].1.protocol == *protocol,
                None => false,
            };
            if take {
                let timer = match listed[j].1.timer_key {
                    Some(t) => t,
                    None => 0,
                };
                let reply_to = listed[j].1.reply_to;
                let _ = wait_slots_remove(&mut self.entries, key);
                proof {
                    assert(armed.contains(key));
                    assert forall|a: int| 0 <= a < out_before.len() implies out_before[a].0.id() != key by {
                        assert(taken_wait(w0, armed, listed@, j as int, out_before[a]));
                        if out_before[a].0.id() == key {
                            let i = choose|i: int| 0 <= i < j && #[trigger] listed@[i].0 == key;
                            assert(listed@[i].0 == listed@[j as int].0);
                        }
                    }
                }
                out.push((WaitKey(key), timer, reply_to));
                proof {
                    assert(out@[out_before.len() as int].0.id() == key);
                    assert(listed@[j as int].1@ == w0[key]);
                    assert(w0[key].2 == Some(timer));
                    assert forall|m: int| 0 <= m < out.len() implies #[trigger] taken_wait(w0, armed, listed@, j + 1, out@[m]) by {
                        if m < out_before.len() {
                            assert(out@[m] == out_before[m]);
                            assert(taken_wait(w0, armed, listed@, j as int, out_before[m]));
                            assert(listed_among(listed@, j + 1, out@[m].0.id()));
                        } else {
                            assert(listed_among(listed@, j + 1, key));
                        }
                    }
                    assert forall|k: u64| armed.contains(k) && #[trigger] listed_among(listed@, j + 1, k) implies taken_among(out@, out.len() as int, k) by {
                        if k == key {
                            assert(out@[out_before.len() as int].0.id() == k);
                        } else {
                            assert(taken_among(out_before, out_before.len() as int, k));
                            let m = choose|m: int| 0 <= m < out_before.len() && #[trigger] out_before[m].0.id() == k;
                            assert(out@[m].0.id() == k);
                        }
                    }
                }
            } else {
                proof {
                    assert(listed@[j as int].1@ == w0[key]);
                    assert(!armed.contains(key));
                    assert forall|m: int| 0 <= m < out.len() implies #[trigger] taken_wait(w0, armed, listed@, j + 1, out@[m]) by {
                        assert(taken_wait(w0, armed, listed@, j as int, out@[m]));
                        assert(listed_among(listed@, j + 1, out@[m].0.id()));
                    }
                }
            }
            proof {
                assert(self.waits() =~= w0.remove_keys(Set::new(|k: u64| armed.contains(k) && listed_among(listed@, j + 1, k))));
            }
            j = j + 1;
            proof {
                assert forall|m: int| 0 <= m < out.len() implies #[trigger] taken_wait(w0, armed, listed@, j as int, out@[m]) by {
                    assert(taken_wait(w0, armed, listed@, j as int, out@[m]));
                }
            }
        }
        proof {
            assert(w0 == old(self).waits());
            assert forall|i: int| 0 <= i < out.len() implies #[trigger] armed_for(old(self).waits(), protocol@).contains(out@[i].0.id())
                && old(self).waits()[out@[i].0.id()].2 == Some(out@[i].1) && old(self).waits()[out@[i].0.id()].1 == out@[i].2 by {
                assert(taken_wait(w0, armed, listed@, listed.len() as int, out@[i]));
            }
            assert(Set::new(|k: u64| armed.contains(k) && listed_among(listed@, listed.len() as int, k)) =~= armed) by {
                assert forall|k: u64| armed.contains(k) implies listed_among(listed@, listed.len() as int, k) by {
                    let i = choose|i: int| 0 <= i < listed.len() && listed@[i].0 == k;
                    assert(listed@[i].0 == k);
                }
            }
        }
        out
    }
}


/// A wait whose timer fired is gone, as if it had never been entered.
pub proof fn law_timeout_undoes_enqueue(w: Map<u64, WaitView>, k: u64, v: WaitView, timer: u64)
    requires
        !w.dom().contains(k),
    ensures
        w.insert(k, v).insert(k, (v.0, v.1, Some(timer))).remove(k) == w,
{
    assert(w.insert(k, v).insert(k, (v.0, v.1, Some(timer))).remove(k) =~= w);
}

/// Once the waits for a protocol are taken, none is left for it.
pub proof fn law_no_wait_left(w: Map<u64, WaitView>, protocol: Seq<char>)
    ensures
        armed_for(w.remove_keys(armed_for(w, protocol)), protocol) == Set::<u64>::empty(),
{
    assert(armed_for(w.remove_keys(armed_for(w, protocol)), protocol) =~= Set::<u64>::empty());
}

} // verus!
