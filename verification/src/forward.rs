//! Join-propagation policy: which peers a gateway forwards a join
//! request to, and the hop budget that bounds the propagation.
//!
//! On receiving a join request with hop budget left, the coordinator
//! selects up to `hops_to_live` candidate peers not already visited,
//! appends itself to the outgoing skip list and decrements the budget
//! by one per hop; a request with no budget or no eligible candidate
//! is answered on the spot. [`lemma_hop_bound_termination`] shows that
//! this bounds any chain of forwards by the first request's budget,
//! whatever the topology.

use vstd::prelude::*;
use crate::types::InboundGwJoinRequest;
use crate::types::PeerId;

verus! {

/// Whether `c` may receive a forward of a join request: it has not
/// been visited (the skip list excludes it), it is not the joiner
/// itself, and it is not the forwarding peer.
pub open spec fn eligible_target(c: PeerId, skip: Seq<PeerId>, joiner: PeerId,
    this_peer: PeerId) -> bool {
    !skip.contains(c) && c != joiner && c != this_peer
}

/// The candidates eligible to receive a forward, in the router's
/// order.
pub open spec fn eligible_of(cands: Seq<PeerId>, skip: Seq<PeerId>, joiner: PeerId,
    this_peer: PeerId) -> Seq<PeerId>
    decreases cands.len(),
{
    if cands.len() == 0 {
        Seq::empty()
    } else {
        let rest = eligible_of(cands.drop_first(), skip, joiner, this_peer);
        if eligible_target(cands[0], skip, joiner, this_peer) {
            seq![cands[0]] + rest
        } else {
            rest
        }
    }
}

/// The first `n` elements of `s`, or all of `s` when it is shorter.
pub open spec fn take_at_most(s: Seq<PeerId>, n: usize) -> Seq<PeerId> {
    if s.len() <= n {
        s
    } else {
        s.take(n as int)
    }
}

/// Appending a candidate extends the eligible subsequence by that
/// candidate exactly when it is eligible.
proof fn lemma_eligible_of_push(cands: Seq<PeerId>, c: PeerId, skip: Seq<PeerId>, joiner: PeerId,
    this_peer: PeerId)
    ensures
        eligible_of(cands.push(c), skip, joiner, this_peer) == eligible_of(
            cands,
            skip,
            joiner,
            this_peer,
        ) + (if eligible_target(c, skip, joiner, this_peer) {
            seq![c]
        } else {
            Seq::<PeerId>::empty()
        }),
    decreases cands.len(),
{
    reveal_with_fuel(eligible_of, 2);
    let tail = if eligible_target(c, skip, joiner, this_peer) {
        seq![c]
    } else {
        Seq::<PeerId>::empty()
    };
    if cands.len() == 0 {
        assert(cands.push(c)[0] == c);
        assert(cands.push(c).drop_first() =~= Seq::<PeerId>::empty());
        assert(eligible_of(cands.push(c).drop_first(), skip, joiner, this_peer) =~= Seq::<
            PeerId,
        >::empty());
        assert(eligible_of(cands.push(c), skip, joiner, this_peer) =~= tail);
        assert(eligible_of(cands, skip, joiner, this_peer) + tail =~= tail);
    } else {
        assert(cands.push(c)[0] == cands[0]);
        assert(cands.push(c).drop_first() =~= cands.drop_first().push(c));
        lemma_eligible_of_push(cands.drop_first(), c, skip, joiner, this_peer);
        let rest = eligible_of(cands.drop_first(), skip, joiner, this_peer);
        assert(eligible_of(cands.push(c).drop_first(), skip, joiner, this_peer) == rest + tail);
        if eligible_target(cands[0], skip, joiner, this_peer) {
            assert(seq![cands[0]] + (rest + tail) =~= (seq![cands[0]] + rest) + tail);
        }
    }
}

/// Every peer the policy finds eligible is indeed eligible — in
/// particular, never in the skip list — and comes from the candidate
/// pool.
pub proof fn lemma_eligible_of_sound(cands: Seq<PeerId>, skip: Seq<PeerId>, joiner: PeerId,
    this_peer: PeerId)
    ensures
        forall|i: int|
            0 <= i < eligible_of(cands, skip, joiner, this_peer).len() ==> eligible_target(
                #[trigger] eligible_of(cands, skip, joiner, this_peer)[i],
                skip,
                joiner,
                this_peer,
            ) && cands.contains(eligible_of(cands, skip, joiner, this_peer)[i]),
    decreases cands.len(),
{
    if cands.len() > 0 {
        lemma_eligible_of_sound(cands.drop_first(), skip, joiner, this_peer);
        let rest = eligible_of(cands.drop_first(), skip, joiner, this_peer);
        assert forall|x: PeerId| cands.drop_first().contains(x) implies cands.contains(x) by {
            let j = choose|j: int|
                0 <= j < cands.drop_first().len() && cands.drop_first()[j] == x;
            assert(cands[j + 1] == x);
        }
        let e = eligible_of(cands, skip, joiner, this_peer);
        assert forall|i: int|
            0 <= i < e.len() implies eligible_target(#[trigger] e[i], skip, joiner, this_peer)
            && cands.contains(e[i]) by {
            if eligible_target(cands[0], skip, joiner, this_peer) {
                if i == 0 {
                    assert(e[0] == cands[0]);
                    assert(cands.contains(cands[0]));
                } else {
                    assert(e[i] == rest[i - 1]);
                }
            } else {
                assert(e[i] == rest[i]);
            }
        }
    }
}

/// Whether `v` holds `p`.
pub fn contains_peer(v: &Vec<PeerId>, p: PeerId) -> (r: bool)
    ensures
        r == v@.contains(p),
{
    let mut i: usize = 0;
    while i < v.len()
        invariant
            0 <= i <= v@.len(),
            forall|j: int| 0 <= j < i ==> v@[j] != p,
        decreases v@.len() - i,
    {
        if v[i] == p {
            return true;
        }
        i = i + 1;
    }
    false
}

/// Selects the peers a join request is forwarded to: the first
/// eligible candidates, in the router's order, up to `limit` of them.
/// No selected peer is in the skip list, is the joiner, or is the
/// forwarding peer itself.
pub fn select_forward_targets(candidates: &Vec<PeerId>, skip_list: &Vec<PeerId>, joiner: PeerId,
    this_peer: PeerId, limit: usize) -> (r: Vec<PeerId>)
    ensures
        r@ == take_at_most(eligible_of(candidates@, skip_list@, joiner, this_peer), limit),
        r@.len() <= limit,
        forall|i: int|
            0 <= i < r@.len() ==> eligible_target(#[trigger] r@[i], skip_list@, joiner, this_peer)
                && candidates@.contains(r@[i]),
{
    let ghost full = eligible_of(candidates@, skip_list@, joiner, this_peer);
    let mut out: Vec<PeerId> = Vec::new();
    let mut i: usize = 0;
    proof {
        assert(candidates@.take(0int) =~= Seq::<PeerId>::empty());
    }
    while i < candidates.len()
        invariant
            0 <= i <= candidates@.len(),
            out@ == take_at_most(
                eligible_of(candidates@.take(i as int), skip_list@, joiner, this_peer),
                limit,
            ),
            out@.len() <= limit,
        decreases candidates@.len() - i,
    {
        let c = candidates[i];
        let ghost pre = eligible_of(candidates@.take(i as int), skip_list@, joiner, this_peer);
        let elig = out.len() < limit && !contains_peer(skip_list, c) && !(c == joiner) && !(c
            == this_peer);
        if elig {
            out.push(c);
        }
        proof {
            assert(candidates@.take(i + 1int) =~= candidates@.take(i as int).push(c));
            lemma_eligible_of_push(candidates@.take(i as int), c, skip_list@, joiner, this_peer);
            let post = eligible_of(candidates@.take(i + 1int), skip_list@, joiner, this_peer);
            if eligible_target(c, skip_list@, joiner, this_peer) {
                assert(post == pre + seq![c]);
                assert(post.len() == pre.len() + 1);
                if pre.len() < limit {
                    assert(out@ =~= take_at_most(post, limit)) by {
                        if post.len() <= limit {
                            assert(pre + seq![c] =~= pre.push(c));
                        } else {
                            assert(take_at_most(post, limit) =~= post.take(limit as int));
                            assert(post.take(limit as int) =~= pre.push(c));
                        }
                    }
                } else {
                    assert(take_at_most(pre, limit) == pre.take(limit as int));
                    assert(post.take(limit as int) =~= pre.take(limit as int));
                }
            } else {
                assert(post == pre);
            }
        }
        i = i + 1;
    }
    proof {
        assert(candidates@.take(candidates@.len() as int) =~= candidates@);
        lemma_eligible_of_sound(candidates@, skip_list@, joiner, this_peer);
        assert forall|j: int|
            0 <= j < out@.len() implies eligible_target(
            #[trigger] out@[j],
            skip_list@,
            joiner,
            this_peer,
        ) && candidates@.contains(out@[j]) by {
            assert(out@[j] == full[j]);
        }
    }
    out
}

/// Whether `child` is what one hop of forwarding makes of `parent`:
/// the same transaction and joiner, the same overall bound, and a hop
/// budget smaller by exactly one — possible only while `parent` still
/// has budget.
pub open spec fn forwards(parent: InboundGwJoinRequest, child: InboundGwJoinRequest) -> bool {
    &&& parent.hops_to_live > 0
    &&& child.hops_to_live == parent.hops_to_live - 1
    &&& child.max_hops_to_live == parent.max_hops_to_live
    &&& child.id == parent.id
    &&& child.joiner == parent.joiner
}

proof fn lemma_chain_hops(chain: Seq<InboundGwJoinRequest>, i: int)
    requires
        0 <= i < chain.len(),
        forall|j: int| 0 <= j < chain.len() - 1 ==> forwards(#[trigger] chain[j], chain[j + 1]),
    ensures
        chain[i].hops_to_live == chain[0].hops_to_live - i,
    decreases i,
{
    if i > 0 {
        lemma_chain_hops(chain, i - 1);
        assert(forwards(chain[i - 1], chain[i]));
    }
}

/// Hop-bound termination: a chain of requests in which each is a
/// forward of the one before it cannot be longer than the first
/// request's hop budget plus the request itself, whatever the
/// topology. Each hop spends one unit of a budget that never
/// increases, so no forwarding loop can run forever.
pub proof fn lemma_hop_bound_termination(chain: Seq<InboundGwJoinRequest>)
    requires
        chain.len() > 0,
        forall|j: int| 0 <= j < chain.len() - 1 ==> forwards(#[trigger] chain[j], chain[j + 1]),
    ensures
        chain.len() <= chain[0].hops_to_live + 1,
{
    lemma_chain_hops(chain, chain.len() - 1);
    assert(chain[chain.len() - 1].hops_to_live >= 0);
}

} // verus!
