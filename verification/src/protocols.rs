//! Combining the protocols of a connection into one: the union of their codecs
//! and of their name-to-key mappings, refused where two protocols map a name
//! or a key inconsistently.

use std::sync::Arc;

use bimap::{BiHashMap, Overwritten};
use vstd::prelude::*;

use crate::slots::SLOTS_MAX;
use crate::codec::{codec_addable, codec_views, codecs_after_add, codecs_wf, CodecView, ErasedCodec, Protocol};
use crate::type_keys::LocalTypeKey;

verus! {

/// A protocol with the keys that a node gave its outbound and inbound message
/// names.
pub struct ProtocolResolved {
    pub protocol: Arc<Protocol>,
    pub outbound: Vec<(String, LocalTypeKey)>,
    pub inbound: Vec<(String, LocalTypeKey)>,
}

/// Two protocols map one name to two keys, or one key to two names.
#[derive(Debug, Clone, Copy, PartialEq, Eq, Structural)]
pub struct InconsistentMappings;

#[verifier::external_type_specification]
#[verifier::external_body]
#[verifier::reject_recursive_types(L)]
#[verifier::reject_recursive_types(R)]
#[verifier::reject_recursive_types(LS)]
#[verifier::reject_recursive_types(RS)]
pub struct ExBiHashMap<L, R, LS, RS>(BiHashMap<L, R, LS, RS>);

/// Names the pairs that a bimap of message names and keys holds, as a map
/// from name to key.
pub uninterp spec fn bimap_pairs(m: BiHashMap<String, LocalTypeKey>) -> Map<Seq<char>, u64>;

/// No key is the value of two names.
pub open spec fn one_to_one(m: Map<Seq<char>, u64>) -> bool {
    forall|a: Seq<char>, b: Seq<char>| #[trigger] m.contains_key(a) && #[trigger] m.contains_key(b) && a != b ==> m[a] != m[b]
}

/// The name holds the key `r`.
pub open spec fn has_value(m: Map<Seq<char>, u64>, r: u64) -> bool {
    exists|k: Seq<char>| #[trigger] m.contains_key(k) && m[k] == r
}

/// The bimap after inserting `(l, r)`: the pairs of `l` and of `r` are
/// dropped, and the new pair is added.
pub open spec fn pair_inserted(m: Map<Seq<char>, u64>, l: Seq<char>, r: u64) -> Map<Seq<char>, u64> {
    Map::new(|k: Seq<char>| k == l || (m.contains_key(k) && m[k] != r), |k: Seq<char>| if k == l { r } else { m[k] })
}

/// What an insertion into a bimap overwrote.
#[derive(Debug, Clone, Copy, PartialEq, Eq, Structural)]
pub enum InsertKind {
    Neither,
    Left,
    Right,
    Pair,
    Both,
}

/// What inserting `(l, r)` overwrites.
pub open spec fn insert_kind(m: Map<Seq<char>, u64>, l: Seq<char>, r: u64) -> InsertKind {
    if m.contains_key(l) {
        if m[l] == r {
            InsertKind::Pair
        } else if has_value(m, r) {
            InsertKind::Both
        } else {
            InsertKind::Left
        }
    } else if has_value(m, r) {
        InsertKind::Right
    } else {
        InsertKind::Neither
    }
}

/// `BiHashMap::new`: an empty bimap.
#[verifier::external_body]
fn bimap_new() -> (r: BiHashMap<String, LocalTypeKey>)
    ensures
        bimap_pairs(r) =~= Map::empty(),
{
    BiHashMap::new()
}

/// `BiHashMap::insert`: removes the pair of `l` and the pair of `r`, adds
/// `(l, r)`, and tells which of them existed (`Pair` when `(l, r)` itself
/// did).
#[verifier::external_body]
fn bimap_insert(m: &mut BiHashMap<String, LocalTypeKey>, l: String, r: LocalTypeKey) -> (k: InsertKind)
    ensures
        bimap_pairs(*final(m)) == pair_inserted(bimap_pairs(*old(m)), l@, r.0),
        k == insert_kind(bimap_pairs(*old(m)), l@, r.0),
        one_to_one(bimap_pairs(*old(m))) ==> one_to_one(bimap_pairs(*final(m))),
{
    match m.insert(l, r) {
        Overwritten::Neither => InsertKind::Neither,
        Overwritten::Left(..) => InsertKind::Left,
        Overwritten::Right(..) => InsertKind::Right,
        Overwritten::Pair(..) => InsertKind::Pair,
        Overwritten::Both(..) => InsertKind::Both,
    }
}

/// `BiHashMap::into_iter`: every pair, each once, in an order that the
/// hashing decides.
#[verifier::external_body]
fn bimap_into_pairs(m: BiHashMap<String, LocalTypeKey>) -> (r: Vec<(String, LocalTypeKey)>)
    ensures
        forall|i: int| 0 <= i < r.len() ==> #[trigger] bimap_pairs(m).contains_key(r@[i].0@)
            && bimap_pairs(m)[r@[i].0@] == r@[i].1.0,
        forall|k: Seq<char>| #[trigger] bimap_pairs(m).contains_key(k) ==> exists|i: int| 0 <= i < r.len() && r@[i].0@ == k,
        forall|i: int, j: int| 0 <= i < r.len() && 0 <= j < r.len() && i != j ==> r@[i].0@ != r@[j].0@,
{
    m.into_iter().collect()
}

pub open spec fn pair_views(s: Seq<(String, LocalTypeKey)>) -> Seq<(Seq<char>, u64)> {
    Seq::new(s.len(), |i: int| (s[i].0@, s[i].1.0))
}

/// The pairs inserted in turn: the bimap after them, or `None` where an
/// insertion overwrote a single side or the very pair.
pub open spec fn pairs_merged(m: Map<Seq<char>, u64>, s: Seq<(Seq<char>, u64)>) -> Option<Map<Seq<char>, u64>>
    decreases s.len(),
{
    if s.len() == 0 {
        Some(m)
    } else {
        match pairs_merged(m, s.drop_last()) {
            None => None,
            Some(m1) => match insert_kind(m1, s.last().0, s.last().1) {
                InsertKind::Neither => Some(pair_inserted(m1, s.last().0, s.last().1)),
                InsertKind::Both => Some(pair_inserted(m1, s.last().0, s.last().1)),
                _ => None,
            },
        }
    }
}

/// The codecs added in turn to a protocol; `None` where one could not be:
/// a new name with a type that is there already, or one more codec than a
/// slot map holds.
pub open spec fn codecs_merged(s: Seq<CodecView>, cs: Seq<CodecView>) -> Option<Seq<CodecView>>
    decreases cs.len(),
{
    if cs.len() == 0 {
        Some(s)
    } else {
        match codecs_merged(s, cs.drop_last()) {
            None => None,
            Some(s1) => if codec_addable(s1, cs.last()) && codecs_after_add(s1, cs.last()).len() <= SLOTS_MAX {
                Some(codecs_after_add(s1, cs.last()))
            } else {
                None
            },
        }
    }
}

/// The codecs of the protocols, in the order the combination adds them: each
/// protocol's outbound codecs, then its inbound ones (the same codecs).
pub open spec fn codec_stream(ps: Seq<ProtocolResolved>) -> Seq<CodecView>
    decreases ps.len(),
{
    if ps.len() == 0 {
        Seq::empty()
    } else {
        codec_stream(ps.drop_last()) + (*ps.last().protocol)@ + (*ps.last().protocol)@
    }
}

/// The outbound name-key pairs of the protocols, in order.
pub open spec fn outbound_stream(ps: Seq<ProtocolResolved>) -> Seq<(Seq<char>, u64)>
    decreases ps.len(),
{
    if ps.len() == 0 {
        Seq::empty()
    } else {
        outbound_stream(ps.drop_last()) + pair_views(ps.last().outbound@)
    }
}

/// The inbound name-key pairs of the protocols, in order.
pub open spec fn inbound_stream(ps: Seq<ProtocolResolved>) -> Seq<(Seq<char>, u64)>
    decreases ps.len(),
{
    if ps.len() == 0 {
        Seq::empty()
    } else {
        inbound_stream(ps.drop_last()) + pair_views(ps.last().inbound@)
    }
}

/// `s` lists the pairs of `m`, each once.
pub open spec fn lists_pairs(s: Seq<(Seq<char>, u64)>, m: Map<Seq<char>, u64>) -> bool {
    &&& forall|i: int| 0 <= i < s.len() ==> #[trigger] m.contains_key(s[i].0) && m[s[i].0] == s[i].1
    &&& forall|k: Seq<char>| #[trigger] m.contains_key(k) ==> exists|i: int| 0 <= i < s.len() && s[i].0 == k
    &&& forall|i: int, j: int| 0 <= i < s.len() && 0 <= j < s.len() && i != j ==> s[i].0 != s[j].0
}

/// Inserts pairs into a bimap in turn, failing at the first insertion that
/// overwrote a single side or the very pair.
fn merge_pairs(m: &mut BiHashMap<String, LocalTypeKey>, pairs: &Vec<(String, LocalTypeKey)>) -> (r: Result<(), InconsistentMappings>)
    ensures
        r is Ok <==> pairs_merged(bimap_pairs(*old(m)), pair_views(pairs@)) is Some,
        r is Ok ==> pairs_merged(bimap_pairs(*old(m)), pair_views(pairs@)) == Some(bimap_pairs(*final(m))),
        one_to_one(bimap_pairs(*old(m))) ==> one_to_one(bimap_pairs(*final(m))),
{
    let ghost m0 = bimap_pairs(*m);
    let ghost pv = pair_views(pairs@);
    let mut i: usize = 0;
    while i < pairs.len()
        invariant
            0 <= i <= pairs.len(),
            pv == pair_views(pairs@),
            m0 == bimap_pairs(*old(m)),
            pairs_merged(m0, pv.take(i as int)) == Some(bimap_pairs(*m)),
            one_to_one(m0) ==> one_to_one(bimap_pairs(*m)),
        decreases pairs.len() - i,
    {
        let ghost before = bimap_pairs(*m);
        let name = pairs[i].0.clone();
        let key = pairs[i].1;
        proof {
            assert(pv.take(i + 1).drop_last() =~= pv.take(i as int));
            assert(pv.take(i + 1).last() == (name@, key.0));
        }
        let kind = bimap_insert(m, name, key);
        match kind {
            InsertKind::Neither => {},
            InsertKind::Both => {},
            _ => {
                proof {
                    lemma_pairs_merged_fails(m0, pv, i as int + 1);
                }
                return Err(InconsistentMappings);
            },
        }
        i = i + 1;
    }
    proof {
        assert(pv.take(pairs.len() as int) =~= pv);
    }
    Ok(())
}

/// Once an insertion fails, the merge of any longer prefix fails.
proof fn lemma_pairs_merged_fails(m: Map<Seq<char>, u64>, s: Seq<(Seq<char>, u64)>, n: int)
    requires
        0 <= n <= s.len(),
        pairs_merged(m, s.take(n)) is None,
    ensures
        pairs_merged(m, s) is None,
    decreases s.len() - n,
{
    if n < s.len() {
        assert(s.take(n + 1).drop_last() =~= s.take(n));
        lemma_pairs_merged_fails(m, s, n + 1);
    } else {
        assert(s.take(n) =~= s);
    }
}

/// Merging a concatenation is merging its parts in turn.
proof fn lemma_pairs_merged_concat(m: Map<Seq<char>, u64>, s: Seq<(Seq<char>, u64)>, t: Seq<(Seq<char>, u64)>)
    ensures
        pairs_merged(m, s + t) == match pairs_merged(m, s) {
            None => None,
            Some(m1) => pairs_merged(m1, t),
        },
    decreases t.len(),
{
    if t.len() == 0 {
        assert(s + t =~= s);
    } else {
        assert((s + t).drop_last() =~= s + t.drop_last());
        lemma_pairs_merged_concat(m, s, t.drop_last());
        match pairs_merged(m, s) {
            None => {},
            Some(m1) => {
                assert((s + t).last() == t.last());
            },
        }
    }
}

/// Adding codecs of a concatenation is adding its parts in turn.
proof fn lemma_codecs_merged_concat(a: Seq<CodecView>, s: Seq<CodecView>, t: Seq<CodecView>)
    ensures
        codecs_merged(a, s + t) == match codecs_merged(a, s) {
            None => None,
            Some(a1) => codecs_merged(a1, t),
        },
    decreases t.len(),
{
    if t.len() == 0 {
        assert(s + t =~= s);
    } else {
        assert((s + t).drop_last() =~= s + t.drop_last());
        lemma_codecs_merged_concat(a, s, t.drop_last());
        match codecs_merged(a, s) {
            None => {},
            Some(a1) => {
                assert((s + t).last() == t.last());
            },
        }
    }
}

/// Adds codecs to a protocol in turn.
fn add_codecs(p: &mut Protocol, codecs: Vec<ErasedCodec>)
    requires
        codecs_wf(old(p)@),
        codecs_merged(old(p)@, codec_views(codecs@)) is Some,
    ensures
        codecs_wf(final(p)@),
        codecs_merged(old(p)@, codec_views(codecs@)) == Some(final(p)@),
{
    let ghost s0 = p@;
    let ghost cv = codec_views(codecs@);
    let mut i: usize = 0;
    let mut codecs = codecs;
    let ghost all = codecs@;
    let n = codecs.len();
    while i < n
        invariant
            0 <= i <= n,
            n == all.len(),
            cv == codec_views(all),
            codecs@ == all.skip(i as int),
            codecs_wf(p@),
            codecs_merged(s0, cv.take(i as int)) == Some(p@),
            codecs_merged(s0, cv) is Some,
        decreases n - i,
    {
        let c = codecs.remove(0);
        proof {
            assert(cv.take(i + 1).drop_last() =~= cv.take(i as int));
            assert(cv.take(i + 1).last() == c@);
            lemma_codecs_merged_prefix(s0, cv, i as int + 1);
            assert(codecs@ =~= all.skip(i + 1));
        }
        p.add_codec(c);
        i = i + 1;
    }
    proof {
        assert(cv.take(all.len() as int) =~= cv);
    }
}

/// Where adding all codecs succeeds, adding any prefix does.
proof fn lemma_codecs_merged_prefix(a: Seq<CodecView>, s: Seq<CodecView>, n: int)
    requires
        0 <= n <= s.len(),
        codecs_merged(a, s) is Some,
    ensures
        codecs_merged(a, s.take(n)) is Some,
    decreases s.len() - n,
{
    if n < s.len() {
        lemma_codecs_merged_prefix(a, s, n + 1);
        assert(s.take(n + 1).drop_last() =~= s.take(n));
    } else {
        assert(s.take(n) =~= s);
    }
}

/// Combines the protocols of a connection: the union of their codecs, and of
/// their outbound and of their inbound name-key pairs. Refused when the pairs
/// of one direction, inserted in turn, ever overwrite a single side or the
/// very pair.
pub fn reduce(protocols: &Vec<ProtocolResolved>) -> (r: Result<ProtocolResolved, InconsistentMappings>)
    requires
        codecs_merged(Seq::empty(), codec_stream(protocols@)) is Some,
    ensures
        r is Ok <==> pairs_merged(Map::empty(), outbound_stream(protocols@)) is Some
            && pairs_merged(Map::empty(), inbound_stream(protocols@)) is Some,
        r matches Ok(c) ==> {
            &&& Some((*c.protocol)@) == codecs_merged(Seq::empty(), codec_stream(protocols@))
            &&& lists_pairs(pair_views(c.outbound@), pairs_merged(Map::empty(), outbound_stream(protocols@))->0)
            &&& lists_pairs(pair_views(c.inbound@), pairs_merged(Map::empty(), inbound_stream(protocols@))->0)
        },
{
    let mut combined_protocol = Protocol::new();
    let mut combined_outbound = bimap_new();
    let mut combined_inbound = bimap_new();
    let ghost ps = protocols@;
    let ghost all_codecs = codec_stream(ps);
    let mut i: usize = 0;
    let mut failed = false;
    while i < protocols.len()
        invariant
            0 <= i <= protocols.len(),
            ps == protocols@,
            all_codecs == codec_stream(ps),
            codecs_merged(Seq::empty(), all_codecs) is Some,
            codecs_wf(combined_protocol@),
            codecs_merged(Seq::empty(), codec_stream(ps.take(i as int))) == Some(combined_protocol@),
            !failed ==> pairs_merged(Map::empty(), outbound_stream(ps.take(i as int))) == Some(bimap_pairs(combined_outbound)),
            !failed ==> pairs_merged(Map::empty(), inbound_stream(ps.take(i as int))) == Some(bimap_pairs(combined_inbound)),
            failed ==> pairs_merged(Map::empty(), outbound_stream(ps.take(i as int))) is None
                || pairs_merged(Map::empty(), inbound_stream(ps.take(i as int))) is None,
        decreases protocols.len() - i,
    {
        let p = &protocols[i];
        let ghost prefix = ps.take(i as int);
        let ghost next = ps.take(i + 1);
        proof {
            assert(next.drop_last() =~= prefix);
            assert(next.last() == p);
            lemma_codec_stream_prefix(ps, i as int + 1);
            lemma_codec_stream_merged_prefix(ps, i as int + 1);
            lemma_codecs_merged_concat(Seq::empty(), codec_stream(prefix), (*p.protocol)@ + (*p.protocol)@);
            assert(codec_stream(next) =~= codec_stream(prefix) + ((*p.protocol)@ + (*p.protocol)@));
            lemma_codecs_merged_concat(combined_protocol@, (*p.protocol)@, (*p.protocol)@);
        }
        let outbound_codecs = p.protocol.outbound_types();
        add_codecs(&mut combined_protocol, outbound_codecs);
        let inbound_codecs = p.protocol.inbound_types();
        add_codecs(&mut combined_protocol, inbound_codecs);
        proof {
            assert(outbound_stream(next) =~= outbound_stream(prefix) + pair_views(p.outbound@));
            assert(inbound_stream(next) =~= inbound_stream(prefix) + pair_views(p.inbound@));
            lemma_pairs_merged_concat(Map::empty(), outbound_stream(prefix), pair_views(p.outbound@));
            lemma_pairs_merged_concat(Map::empty(), inbound_stream(prefix), pair_views(p.inbound@));
        }
        if !failed {
            if merge_pairs(&mut combined_outbound, &p.outbound).is_err() {
                failed = true;
            } else if merge_pairs(&mut combined_inbound, &p.inbound).is_err() {
                failed = true;
            }
        }
        i = i + 1;
    }
    proof {
        assert(ps.take(protocols.len() as int) =~= ps);
    }
    if failed {
        return Err(InconsistentMappings);
    }
    let outbound = bimap_into_pairs(combined_outbound);
    let inbound = bimap_into_pairs(combined_inbound);
    proof {
        assert forall|n: int| 0 <= n < pair_views(outbound@).len() implies #[trigger] bimap_pairs(combined_outbound).contains_key(pair_views(outbound@)[n].0)
            && bimap_pairs(combined_outbound)[pair_views(outbound@)[n].0] == pair_views(outbound@)[n].1 by {
            assert(bimap_pairs(combined_outbound).contains_key(outbound@[n].0@));
        }
        assert forall|n: int| 0 <= n < pair_views(inbound@).len() implies #[trigger] bimap_pairs(combined_inbound).contains_key(pair_views(inbound@)[n].0)
            && bimap_pairs(combined_inbound)[pair_views(inbound@)[n].0] == pair_views(inbound@)[n].1 by {
            assert(bimap_pairs(combined_inbound).contains_key(inbound@[n].0@));
        }
        assert forall|a: int, b: int| 0 <= a < pair_views(outbound@).len() && 0 <= b < pair_views(outbound@).len() && a != b
            implies pair_views(outbound@)[a].0 != pair_views(outbound@)[b].0 by {
            assert(outbound@[a].0@ != outbound@[b].0@);
        }
        assert forall|a: int, b: int| 0 <= a < pair_views(inbound@).len() && 0 <= b < pair_views(inbound@).len() && a != b
            implies pair_views(inbound@)[a].0 != pair_views(inbound@)[b].0 by {
            assert(inbound@[a].0@ != inbound@[b].0@);
        }
        assert forall|k: Seq<char>| #[trigger] bimap_pairs(combined_outbound).contains_key(k)
            implies exists|n: int| 0 <= n < pair_views(outbound@).len() && pair_views(outbound@)[n].0 == k by {
            let n = choose|n: int| 0 <= n < outbound.len() && outbound@[n].0@ == k;
            assert(pair_views(outbound@)[n].0 == k);
        }
        assert forall|k: Seq<char>| #[trigger] bimap_pairs(combined_inbound).contains_key(k)
            implies exists|n: int| 0 <= n < pair_views(inbound@).len() && pair_views(inbound@)[n].0 == k by {
            let n = choose|n: int| 0 <= n < inbound.len() && inbound@[n].0@ == k;
            assert(pair_views(inbound@)[n].0 == k);
        }
    }
    Ok(ProtocolResolved { protocol: Arc::new(combined_protocol), outbound, inbound })
}

/// Where the codecs of all protocols can be added, those of any first ones
/// can.
proof fn lemma_codec_stream_merged_prefix(ps: Seq<ProtocolResolved>, n: int)
    requires
        0 <= n <= ps.len(),
        codecs_merged(Seq::empty(), codec_stream(ps)) is Some,
    ensures
        codecs_merged(Seq::empty(), codec_stream(ps.take(n))) is Some,
    decreases ps.len() - n,
{
    if n < ps.len() {
        lemma_codec_stream_merged_prefix(ps, n + 1);
        lemma_codec_stream_prefix(ps, n + 1);
        let c = (*ps[n].protocol)@;
        assert(codec_stream(ps.take(n + 1)) =~= codec_stream(ps.take(n)) + (c + c));
        lemma_codecs_merged_concat(Seq::empty(), codec_stream(ps.take(n)), c + c);
    } else {
        assert(ps.take(n) =~= ps);
    }
}

/// The codec stream of a longer prefix extends that of the shorter one.
proof fn lemma_codec_stream_prefix(ps: Seq<ProtocolResolved>, n: int)
    requires
        0 < n <= ps.len(),
    ensures
        codec_stream(ps.take(n)) == codec_stream(ps.take(n - 1)) + (*ps[n - 1].protocol)@ + (*ps[n - 1].protocol)@,
{
    assert(ps.take(n).drop_last() =~= ps.take(n - 1));
}


/// No key occurs twice among the pairs.
pub open spec fn values_unique(s: Seq<(Seq<char>, u64)>) -> bool {
    forall|i: int, j: int| 0 <= i < s.len() && 0 <= j < s.len() && i != j ==> s[i].1 != s[j].1
}

/// Pairs that name no name and no key twice merge without refusal, into the
/// map they list.
pub proof fn law_consistent_pairs_merge(s: Seq<(Seq<char>, u64)>)
    requires
        crate::assoc::keys_unique(s),
        values_unique(s),
    ensures
        pairs_merged(Map::empty(), s) == Some(crate::assoc::assoc_view(s)),
    decreases s.len(),
{
    if s.len() == 0 {
        assert(crate::assoc::assoc_view(s) =~= Map::empty());
    } else {
        let t = s.drop_last();
        let (l, r) = s.last();
        assert(crate::assoc::keys_unique(t));
        assert(values_unique(t));
        law_consistent_pairs_merge(t);
        let m1 = crate::assoc::assoc_view(t);
        crate::assoc::lemma_assoc_all(t);
        assert(!m1.contains_key(l)) by {
            if m1.contains_key(l) {
                let j = choose|j: int| 0 <= j < t.len() && t[j].0 == l;
                assert(s[j].0 == s[s.len() - 1].0);
            }
        }
        assert(!has_value(m1, r)) by {
            if has_value(m1, r) {
                let k = choose|k: Seq<char>| #[trigger] m1.contains_key(k) && m1[k] == r;
                let j = choose|j: int| 0 <= j < t.len() && t[j].0 == k;
                assert(m1[t[j].0] == t[j].1);
                assert(s[j].1 == s[s.len() - 1].1);
            }
        }
        crate::assoc::lemma_assoc_push(t, l, r);
        assert(t.push((l, r)) =~= s);
        assert(pair_inserted(m1, l, r) =~= m1.insert(l, r));
    }
}

/// The same name-key pair from two protocols is refused: inserting a pair
/// that the bimap holds already overwrites the very pair.
pub proof fn law_repeated_pair_refused(m: Map<Seq<char>, u64>, l: Seq<char>, r: u64)
    ensures
        insert_kind(m.insert(l, r), l, r) == InsertKind::Pair,
{
}

} // verus!
