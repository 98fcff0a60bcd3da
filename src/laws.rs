use vstd::prelude::*;
use vstd::multiset::Multiset;
use crate::router::{
    after_close, after_disconnect, after_register, is_drained, reachable, RouterModel,
};

verus! {

broadcast use {vstd::seq_lib::group_to_multiset_ensures, vstd::multiset::group_multiset_axioms};

/// A registration or a disconnect notice, as the router sees it.
pub enum PeerEvent<H> {
    Join(Seq<char>, H),
    Leave(Seq<char>),
}

/// The state after the router handled `evs` in order, starting from `m`.
pub open spec fn run<H>(m: RouterModel<H>, evs: Seq<PeerEvent<H>>) -> RouterModel<H>
    decreases evs.len(),
{
    if evs.len() == 0 {
        m
    } else {
        let before = run(m, evs.drop_last());
        match evs.last() {
            PeerEvent::Join(n, h) => after_register(before, n, h),
            PeerEvent::Leave(n) => after_disconnect(before, n),
        }
    }
}

/// How many events of `evs` are registrations.
pub open spec fn joins<H>(evs: Seq<PeerEvent<H>>) -> nat
    decreases evs.len(),
{
    if evs.len() == 0 {
        0
    } else {
        joins(evs.drop_last()) + if evs.last() is Join {
            1nat
        } else {
            0nat
        }
    }
}

/// How many events of `evs` are disconnect notices.
pub open spec fn leaves<H>(evs: Seq<PeerEvent<H>>) -> nat
    decreases evs.len(),
{
    if evs.len() == 0 {
        0
    } else {
        leaves(evs.drop_last()) + if evs.last() is Leave {
            1nat
        } else {
            0nat
        }
    }
}

/// Each registration of `evs` is for a name not registered at that point,
/// and each notice comes from the writer of a registered peer.
pub open spec fn distinct_run<H>(m: RouterModel<H>, evs: Seq<PeerEvent<H>>) -> bool {
    forall|k: int|
        0 <= k < evs.len() ==> match #[trigger] evs[k] {
            PeerEvent::Join(n, _) => !run(m, evs.take(k)).peers.contains_key(n),
            PeerEvent::Leave(n) => run(m, evs.take(k)).peers.contains_key(n),
        }
}

/// Registrations under distinct names and notices from live writers keep
/// the registry's size at the number of peers that registered minus those
/// that disconnected.
pub proof fn lemma_registry_size<H>(m: RouterModel<H>, evs: Seq<PeerEvent<H>>)
    requires
        m.open,
        m.peers.dom().finite(),
        distinct_run(m, evs),
    ensures
        run(m, evs).peers.dom().finite(),
        run(m, evs).open,
        run(m, evs).peers.dom().len() + leaves(evs) == m.peers.dom().len() + joins(evs),
    decreases evs.len(),
{
    if evs.len() > 0 {
        let front = evs.drop_last();
        assert forall|k: int| 0 <= k < front.len() implies match #[trigger] front[k] {
            PeerEvent::Join(n, _) => !run(m, front.take(k)).peers.contains_key(n),
            PeerEvent::Leave(n) => run(m, front.take(k)).peers.contains_key(n),
        } by {
            assert(front.take(k) =~= evs.take(k));
            assert(front[k] == evs[k]);
        }
        lemma_registry_size(m, front);
        let k = evs.len() - 1;
        assert(evs.take(k) =~= front);
        assert(evs[k] == evs.last());
    }
}

/// A registration under a name that is registered already changes nothing:
/// the existing entry and its mailbox stay.
pub proof fn lemma_duplicate_registration<H>(m: RouterModel<H>, name: Seq<char>, handle: H)
    requires
        m.peers.contains_key(name),
    ensures
        after_register(m, name, handle) == m,
        after_register(m, name, handle).peers[name] == m.peers[name],
{
}

/// Only registered peers are ever delivered to.
pub proof fn lemma_reachable_registered<H>(peers: Map<Seq<char>, H>, to: Seq<Seq<char>>)
    ensures
        forall|k: int|
            0 <= k < reachable(peers, to).len() ==> peers.contains_key(
                #[trigger] reachable(peers, to)[k],
            ),
        reachable(peers, to).len() <= to.len(),
    decreases to.len(),
{
    if to.len() > 0 {
        lemma_reachable_registered(peers, to.drop_last());
    }
}

/// A message whose destinations are all unregistered is delivered nowhere.
pub proof fn lemma_unregistered_destinations<H>(peers: Map<Seq<char>, H>, to: Seq<Seq<char>>)
    requires
        forall|k: int| 0 <= k < to.len() ==> !peers.contains_key(#[trigger] to[k]),
    ensures
        reachable(peers, to).len() == 0,
    decreases to.len(),
{
    if to.len() > 0 {
        lemma_unregistered_destinations(peers, to.drop_last());
    }
}

/// Once the notice of a peer's writer has been handled, no later message
/// is delivered to that peer.
pub proof fn lemma_no_delivery_after_disconnect<H>(
    m: RouterModel<H>,
    name: Seq<char>,
    to: Seq<Seq<char>>,
)
    requires
        m.open,
    ensures
        !after_disconnect(m, name).peers.contains_key(name),
        !reachable(after_disconnect(m, name).peers, to).contains(name),
{
    lemma_reachable_registered(after_disconnect(m, name).peers, to);
}

/// Deliveries are never merged: the deliveries for the destinations `a`
/// followed by `b` are those for `a` followed by those for `b`. So a
/// destination listed twice, or a line sent twice, is delivered twice.
pub proof fn lemma_no_deduplication<H>(
    peers: Map<Seq<char>, H>,
    a: Seq<Seq<char>>,
    b: Seq<Seq<char>>,
)
    ensures
        reachable(peers, a + b) == reachable(peers, a) + reachable(peers, b),
    decreases b.len(),
{
    if b.len() == 0 {
        assert(a + b =~= a);
        assert(reachable(peers, a) + reachable(peers, b) =~= reachable(peers, a));
    } else {
        lemma_no_deduplication(peers, a, b.drop_last());
        assert((a + b).drop_last() =~= a + b.drop_last());
        assert((a + b).last() == b.last());
        assert(reachable(peers, a) + reachable(peers, b.drop_last()).push(b.last()) =~= (
        reachable(peers, a) + reachable(peers, b.drop_last())).push(b.last()));
    }
}

/// The state after the notices `ns` were handled in order, starting from `m`.
pub open spec fn drain<H>(m: RouterModel<H>, ns: Seq<Seq<char>>) -> RouterModel<H>
    decreases ns.len(),
{
    if ns.len() == 0 {
        m
    } else {
        after_disconnect(drain(m, ns.drop_last()), ns.last())
    }
}

/// After shutdown began, each notice from a writer that is owed one counts
/// that writer off once.
proof fn lemma_drain_counts<H>(m: RouterModel<H>, ns: Seq<Seq<char>>)
    requires
        !m.open,
        ns.to_multiset().subset_of(m.draining),
    ensures
        !drain(m, ns).open,
        drain(m, ns).draining.len() == m.draining.len() - ns.len(),
        forall|x: Seq<char>|
            #[trigger] drain(m, ns).draining.count(x) == m.draining.count(x) - ns.to_multiset().count(
                x,
            ),
    decreases ns.len(),
{
    if ns.len() > 0 {
        let p = ns.drop_last();
        assert(p.push(ns.last()) =~= ns);
        assert(p.to_multiset().subset_of(m.draining));
        lemma_drain_counts(m, p);
        let d = drain(m, p).draining;
        assert(d.count(ns.last()) >= 1);
        assert(Multiset::singleton(ns.last()).subset_of(d));
    }
}

/// The notices of a prefix are among the notices of the whole.
proof fn lemma_prefix_sub<A>(s: Seq<A>, j: int)
    requires
        0 <= j <= s.len(),
    ensures
        s.take(j).to_multiset().subset_of(s.to_multiset()),
    decreases s.len(),
{
    if j == s.len() {
        assert(s.take(j) =~= s);
    } else {
        let p = s.drop_last();
        lemma_prefix_sub(p, j);
        assert(p.take(j) =~= s.take(j));
        assert(p.push(s.last()) =~= s);
    }
}

/// Shutdown with the peers of `before` registered ends exactly when every
/// writer that was running has reported once: when the notices `ns` hold
/// each registered name once, the router is drained after all of them and
/// after no proper prefix of them.
pub proof fn lemma_shutdown_waits_for_writers<H>(
    before: RouterModel<H>,
    after: RouterModel<H>,
    ns: Seq<Seq<char>>,
)
    requires
        before.open,
        before.draining.len() == 0,
        after_close(before, after),
        forall|n: Seq<char>|
            #[trigger] ns.to_multiset().count(n) == if before.peers.contains_key(n) {
                1nat
            } else {
                0nat
            },
    ensures
        after.draining.len() == before.peers.dom().len(),
        ns.len() == before.peers.dom().len(),
        is_drained(drain(after, ns)),
        forall|j: int| 0 <= j < ns.len() ==> !is_drained(#[trigger] drain(after, ns.take(j))),
{
    assert(before.draining =~= Multiset::<Seq<char>>::empty());
    assert forall|n: Seq<char>| after.draining.count(n) == ns.to_multiset().count(n) by {}
    assert(after.draining =~= ns.to_multiset());
    lemma_drain_counts(after, ns);
    assert forall|j: int| 0 <= j < ns.len() implies !is_drained(
        #[trigger] drain(after, ns.take(j)),
    ) by {
        lemma_prefix_sub(ns, j);
        lemma_drain_counts(after, ns.take(j));
    }
}

} // verus!
