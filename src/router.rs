use vstd::prelude::*;
use vstd::multiset::Multiset;
use crate::message::{strings_view, RoutedMessage};
use crate::payload::{direct_message, Message};
use crate::registry::Registry;

verus! {

broadcast use {vstd::seq_lib::group_to_multiset_ensures, vstd::multiset::group_multiset_axioms};

/// The destinations of `to` that are registered in `peers`, in order, each
/// as often as it is listed.
pub open spec fn reachable<H>(peers: Map<Seq<char>, H>, to: Seq<Seq<char>>) -> Seq<Seq<char>>
    decreases to.len(),
{
    if to.len() == 0 {
        Seq::empty()
    } else {
        let front = reachable(peers, to.drop_last());
        if peers.contains_key(to.last()) {
            front.push(to.last())
        } else {
            front
        }
    }
}

/// The abstract state of the router: the registry, the writers that are
/// still owed a disconnect notice after shutdown began, and whether
/// application events are still accepted.
pub struct RouterModel<H> {
    pub peers: Map<Seq<char>, H>,
    pub draining: Multiset<Seq<char>>,
    pub open: bool,
}

/// The state after a registration event: first registration wins.
pub open spec fn after_register<H>(m: RouterModel<H>, name: Seq<char>, handle: H) -> RouterModel<H> {
    if m.peers.contains_key(name) {
        m
    } else {
        RouterModel { peers: m.peers.insert(name, handle), ..m }
    }
}

/// The state after the writer of `name` reported its end.
pub open spec fn after_disconnect<H>(m: RouterModel<H>, name: Seq<char>) -> RouterModel<H> {
    if m.open {
        RouterModel { peers: m.peers.remove(name), ..m }
    } else {
        RouterModel { draining: m.draining.remove(name), ..m }
    }
}

/// `new` is the state after the application events ended in state `old`:
/// the registry is dropped, and each of its writers is owed a notice.
pub open spec fn after_close<H>(old: RouterModel<H>, new: RouterModel<H>) -> bool {
    &&& !new.open
    &&& new.peers == Map::<Seq<char>, H>::empty()
    &&& new.draining.len() == old.draining.len() + old.peers.dom().len()
    &&& forall|n: Seq<char>|
        #[trigger] new.draining.count(n) == old.draining.count(n) + if old.peers.contains_key(n) {
            1nat
        } else {
            0nat
        }
}

/// Every writer has reported after shutdown began: the router may return.
pub open spec fn is_drained<H>(m: RouterModel<H>) -> bool {
    !m.open && m.draining.len() == 0
}

/// One payload to push to the mailbox in slot `slot` of the registry.
pub struct Delivery {
    pub slot: usize,
    pub message: Message,
}

/// What a disconnect notice did.
#[derive(Clone, Copy, Debug, PartialEq, Eq, Structural)]
pub enum DisconnectOutcome {
    /// The peer's registry entry was removed.
    Removed,
    /// A writer that was owed a notice after shutdown reported.
    Drained,
    /// The notice names no registered peer and no writer owed a notice: a
    /// broken invariant.
    Unknown,
}

/// The single authority over the registry: it handles registrations,
/// routes messages and processes disconnect notices, one event at a time.
pub struct Router<H> {
    registry: Registry<H>,
    draining: Vec<String>,
    open: bool,
}

impl<H> View for Router<H> {
    type V = RouterModel<H>;

    closed spec fn view(&self) -> RouterModel<H> {
        RouterModel {
            peers: self.registry@,
            draining: strings_view(self.draining@).to_multiset(),
            open: self.open,
        }
    }
}

impl<H> Router<H> {
    /// The registry is consistent; while open no writer is owed a notice,
    /// and once closed the registry is empty.
    pub closed spec fn wf(&self) -> bool {
        &&& self.registry.wf()
        &&& self.open ==> self.draining@.len() == 0
        &&& !self.open ==> self.registry@.dom().len() == 0
    }

    /// The number of registry slots.
    pub closed spec fn slots(&self) -> nat {
        self.registry.slots()
    }

    /// The mailbox handle in registry slot `i`.
    pub closed spec fn handle_at(&self, i: int) -> H {
        self.registry.handle_at(i)
    }

    /// A router with an empty registry, accepting events.
    pub fn new() -> (r: Self)
        ensures
            r.wf(),
            r@.open,
            r@.peers == Map::<Seq<char>, H>::empty(),
            r@.draining.len() == 0,
    {
        let r = Router { registry: Registry::new(), draining: Vec::new(), open: true };
        proof {
            assert(strings_view(r.draining@) =~= Seq::<Seq<char>>::empty());
        }
        r
    }

    /// Whether application events are still accepted.
    pub fn is_open(&self) -> (r: bool)
        ensures
            r == self@.open,
    {
        self.open
    }

    /// The number of registered peers.
    pub fn len(&self) -> (r: usize)
        requires
            self.wf(),
        ensures
            r == self@.peers.dom().len(),
    {
        self.registry.len()
    }

    /// Whether `name` is registered.
    pub fn contains(&self, name: &String) -> (r: bool)
        requires
            self.wf(),
        ensures
            r == self@.peers.contains_key(name@),
    {
        self.registry.contains(name)
    }

    /// The mailbox handle in registry slot `slot`.
    pub fn handle(&self, slot: usize) -> (r: &H)
        requires
            self.wf(),
            slot < self.slots(),
        ensures
            *r == self.handle_at(slot as int),
    {
        self.registry.handle(slot)
    }

    /// Whether shutdown began and every writer has reported.
    pub fn is_drained(&self) -> (r: bool)
        requires
            self.wf(),
        ensures
            r == is_drained(self@),
    {
        !self.open && self.draining.len() == 0
    }

    /// Handles the registration of `name` with the producing end `handle` of
    /// a fresh mailbox. Where `name` is registered already the event is
    /// dropped, together with `handle`; otherwise the entry is added and the
    /// caller starts the peer's writer.
    pub fn register(&mut self, name: String, handle: H) -> (r: bool)
        requires
            old(self).wf(),
            old(self)@.open,
        ensures
            final(self).wf(),
            final(self)@ == after_register(old(self)@, name@, handle),
            r == !old(self)@.peers.contains_key(name@),
    {
        if self.registry.contains(&name) {
            false
        } else {
            self.registry.insert(name, handle);
            true
        }
    }

    /// The payloads for `msg`: one for each listed destination that is
    /// registered, in the order listed, with the slot of its mailbox.
    /// Unregistered destinations are skipped.
    pub fn route(&self, msg: &RoutedMessage) -> (r: Vec<Delivery>)
        requires
            self.wf(),
        ensures
            r@.len() == reachable(self@.peers, msg@.to).len(),
            forall|k: int|
                0 <= k < r@.len() ==> {
                    let dest = reachable(self@.peers, msg@.to)[k];
                    &&& (#[trigger] r@[k]).message@ == direct_message(msg@.from, dest, msg@.body)
                    &&& r@[k].slot < self.slots()
                    &&& self.handle_at(r@[k].slot as int) == self@.peers[dest]
                },
    {
        let mut out: Vec<Delivery> = Vec::new();
        let mut i: usize = 0;
        let ghost to = msg@.to;
        while i < msg.to.len()
            invariant
                self.wf(),
                to == msg@.to,
                i <= msg.to@.len(),
                out@.len() == reachable(self@.peers, to.take(i as int)).len(),
                forall|k: int|
                    0 <= k < out@.len() ==> {
                        let dest = reachable(self@.peers, to.take(i as int))[k];
                        &&& (#[trigger] out@[k]).message@ == direct_message(
                            msg@.from,
                            dest,
                            msg@.body,
                        )
                        &&& out@[k].slot < self.slots()
                        &&& self.handle_at(out@[k].slot as int) == self@.peers[dest]
                    },
            decreases msg.to@.len() - i,
        {
            proof {
                assert(to.take(i + 1).drop_last() =~= to.take(i as int));
                assert(to.take(i + 1).last() == msg.to@[i as int]@);
            }
            let dest = &msg.to[i];
            match self.registry.find(dest) {
                Some(slot) => {
                    let message = Message::direct(&msg.from, dest, &msg.body);
                    out.push(Delivery { slot, message });
                },
                None => {},
            }
            i = i + 1;
        }
        proof {
            assert(to.take(i as int) =~= to);
        }
        out
    }

    /// Handles the notice that the writer of `name` has ended. While open
    /// this removes the peer's entry; after shutdown began it counts the
    /// writer off.
    pub fn disconnect(&mut self, name: &String) -> (r: DisconnectOutcome)
        requires
            old(self).wf(),
        ensures
            final(self).wf(),
            final(self)@ == after_disconnect(old(self)@, name@),
            r == if old(self)@.open {
                if old(self)@.peers.contains_key(name@) {
                    DisconnectOutcome::Removed
                } else {
                    DisconnectOutcome::Unknown
                }
            } else if old(self)@.draining.count(name@) > 0 {
                DisconnectOutcome::Drained
            } else {
                DisconnectOutcome::Unknown
            },
    {
        if self.open {
            match self.registry.remove(name) {
                Some(_) => DisconnectOutcome::Removed,
                None => DisconnectOutcome::Unknown,
            }
        } else {
            let ghost before = strings_view(self.draining@);
            let mut i: usize = 0;
            while i < self.draining.len()
                invariant
                    self.wf(),
                    !self.open,
                    !old(self).open,
                    self.registry == old(self).registry,
                    before == strings_view(old(self).draining@),
                    before == strings_view(self.draining@),
                    i <= self.draining@.len(),
                    forall|k: int| 0 <= k < i ==> self.draining@[k]@ != name@,
                decreases self.draining@.len() - i,
            {
                if self.draining[i] == *name {
                    self.draining.remove(i);
                    proof {
                        assert(strings_view(self.draining@) =~= before.remove(i as int));
                        assert(before[i as int] == name@);
                        assert(before.remove(i as int).to_multiset() == before.to_multiset().remove(
                            before[i as int],
                        ));
                        assert(before.contains(name@));
                        assert(before.to_multiset().count(name@) > 0);
                    }
                    return DisconnectOutcome::Drained;
                }
                i = i + 1;
            }
            proof {
                assert(!before.contains(name@));
                assert(before.to_multiset().count(name@) == 0);
                assert(before.to_multiset().remove(name@) =~= before.to_multiset());
            }
            DisconnectOutcome::Unknown
        }
    }

    /// Handles the end of application events: drops the registry, which
    /// closes every mailbox, and from then on waits for the notices of the
    /// writers that were running.
    pub fn close(&mut self)
        requires
            old(self).wf(),
            old(self)@.open,
        ensures
            final(self).wf(),
            after_close(old(self)@, final(self)@),
    {
        let ghost before = self@;
        let names = self.registry.take_names();
        self.draining = names;
        self.open = false;
        proof {
            let v = strings_view(self.draining@);
            v.lemma_multiset_has_no_duplicates();
            assert(strings_view(old(self).draining@) =~= Seq::<Seq<char>>::empty());
            assert forall|n: Seq<char>|
                #[trigger] self@.draining.count(n) == before.draining.count(n) + if before.peers.contains_key(n) {
                    1nat
                } else {
                    0nat
                } by {
                assert(v.to_multiset().contains(n) <==> v.to_multiset().count(n) > 0);
            }
        }
    }
}

} // verus!
