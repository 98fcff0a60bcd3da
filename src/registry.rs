use vstd::prelude::*;
use crate::message::strings_view;

verus! {

/// The map from the names of registered peers to their mailbox handles.
/// Each name has at most one entry; entries sit in numbered slots.
pub struct Registry<H> {
    names: Vec<String>,
    handles: Vec<H>,
    model: Ghost<Map<Seq<char>, H>>,
}

impl<H> View for Registry<H> {
    type V = Map<Seq<char>, H>;

    closed spec fn view(&self) -> Map<Seq<char>, H> {
        self.model@
    }
}

impl<H> Registry<H> {
    /// The slots are consistent with the map: one slot per name, no name twice.
    pub closed spec fn wf(&self) -> bool {
        &&& self.names@.len() == self.handles@.len()
        &&& self.model@.dom().finite()
        &&& self.model@.dom().len() == self.names@.len()
        &&& forall|i: int, j: int|
            0 <= i < j < self.names@.len() ==> self.names@[i]@ != self.names@[j]@
        &&& forall|i: int|
            0 <= i < self.names@.len() ==> {
                &&& self.model@.contains_key(#[trigger] self.names@[i]@)
                &&& self.model@[self.names@[i]@] == self.handles@[i]
            }
    }

    /// The number of slots.
    pub closed spec fn slots(&self) -> nat {
        self.names@.len()
    }

    /// The name held in slot `i`.
    pub closed spec fn name_at(&self, i: int) -> Seq<char> {
        self.names@[i]@
    }

    /// The handle held in slot `i`.
    pub closed spec fn handle_at(&self, i: int) -> H {
        self.handles@[i]
    }

    /// An empty registry.
    pub fn new() -> (r: Self)
        ensures
            r.wf(),
            r@ == Map::<Seq<char>, H>::empty(),
    {
        Registry { names: Vec::new(), handles: Vec::new(), model: Ghost(Map::empty()) }
    }

    /// The number of registered names.
    pub fn len(&self) -> (r: usize)
        requires
            self.wf(),
        ensures
            r == self@.dom().len(),
    {
        self.names.len()
    }

    /// The slot that holds `name`, if it is registered.
    pub fn find(&self, name: &String) -> (r: Option<usize>)
        requires
            self.wf(),
        ensures
            r is None <==> !self@.contains_key(name@),
            r matches Some(i) ==> i < self.slots() && self.name_at(i as int) == name@
                && self@[name@] == self.handle_at(i as int),
    {
        let mut i: usize = 0;
        while i < self.names.len()
            invariant
                self.wf(),
                i <= self.names@.len(),
                forall|k: int| 0 <= k < i ==> self.names@[k]@ != name@,
            decreases self.names@.len() - i,
        {
            if self.names[i] == *name {
                return Some(i);
            }
            i = i + 1;
        }
        proof {
            if self@.contains_key(name@) {
                self.lemma_key_has_slot(name@);
            }
        }
        None
    }

    /// Every registered name sits in some slot.
    proof fn lemma_key_has_slot(&self, k: Seq<char>)
        requires
            self.wf(),
            self@.contains_key(k),
        ensures
            exists|i: int| 0 <= i < self.names@.len() && self.names@[i]@ == k,
    {
        let names = self.names@.map_values(|s: String| s@);
        assert(forall|i: int| 0 <= i < names.len() ==> self@.dom().contains(#[trigger] names[i]));
        if !names.contains(k) {
            assert(names.to_set().subset_of(self@.dom()));
            assert(names.no_duplicates());
            names.unique_seq_to_set();
            vstd::seq_lib::seq_to_set_is_finite(names);
            assert(names.to_set().insert(k).subset_of(self@.dom()));
            vstd::set_lib::lemma_len_subset(names.to_set().insert(k), self@.dom());
        }
    }

    /// Whether `name` is registered.
    pub fn contains(&self, name: &String) -> (r: bool)
        requires
            self.wf(),
        ensures
            r == self@.contains_key(name@),
    {
        self.find(name).is_some()
    }

    /// The handle in slot `slot`.
    pub fn handle(&self, slot: usize) -> (r: &H)
        requires
            self.wf(),
            slot < self.slots(),
        ensures
            *r == self.handle_at(slot as int),
    {
        &self.handles[slot]
    }

    /// Adds `name` with `handle`; `name` must not be registered yet.
    pub fn insert(&mut self, name: String, handle: H)
        requires
            old(self).wf(),
            !old(self)@.contains_key(name@),
        ensures
            final(self).wf(),
            final(self)@ == old(self)@.insert(name@, handle),
    {
        let ghost key = name@;
        let ghost h = handle;
        proof {
            self.lemma_no_slot_for(key);
        }
        self.names.push(name);
        self.handles.push(handle);
        self.model = Ghost(self.model@.insert(key, h));
    }

    /// A name that is not registered sits in no slot.
    proof fn lemma_no_slot_for(&self, k: Seq<char>)
        requires
            self.wf(),
            !self@.contains_key(k),
        ensures
            forall|i: int| 0 <= i < self.names@.len() ==> self.names@[i]@ != k,
    {
    }

    /// Removes `name` and gives back its handle; `None` where it was not
    /// registered.
    pub fn remove(&mut self, name: &String) -> (r: Option<H>)
        requires
            old(self).wf(),
        ensures
            final(self).wf(),
            final(self)@ == old(self)@.remove(name@),
            r is Some <==> old(self)@.contains_key(name@),
            r matches Some(h) ==> h == old(self)@[name@],
    {
        match self.find(name) {
            None => {
                proof {
                    assert(self@.remove(name@) =~= self@);
                }
                None
            },
            Some(i) => {
                let ghost old_names = self.names@;
                let ghost old_handles = self.handles@;
                let ghost old_model = self.model@;
                self.names.remove(i);
                let h = self.handles.remove(i);
                self.model = Ghost(old_model.remove(name@));
                proof {
                    assert forall|j: int| 0 <= j < self.names@.len() implies {
                        &&& self.model@.contains_key(#[trigger] self.names@[j]@)
                        &&& self.model@[self.names@[j]@] == self.handles@[j]
                    } by {
                        if j < i {
                            assert(self.names@[j] == old_names[j]);
                        } else {
                            assert(self.names@[j] == old_names[j + 1]);
                        }
                    }
                    assert forall|a: int, b: int|
                        0 <= a < b < self.names@.len() implies self.names@[a]@
                        != self.names@[b]@ by {
                        let a1 = if a < i { a } else { a + 1 };
                        let b1 = if b < i { b } else { b + 1 };
                        assert(self.names@[a] == old_names[a1]);
                        assert(self.names@[b] == old_names[b1]);
                    }
                }
                Some(h)
            },
        }
    }

    /// Empties the registry, dropping every handle, and gives back the names
    /// that were registered.
    pub fn take_names(&mut self) -> (r: Vec<String>)
        requires
            old(self).wf(),
        ensures
            final(self).wf(),
            final(self)@ == Map::<Seq<char>, H>::empty(),
            r@.len() == old(self)@.dom().len(),
            strings_view(r@).no_duplicates(),
            forall|k: Seq<char>| old(self)@.contains_key(k) <==> strings_view(r@).contains(k),
    {
        proof {
            let names = strings_view(self.names@);
            assert forall|k: Seq<char>| self@.contains_key(k) <==> names.contains(k) by {
                if self@.contains_key(k) {
                    self.lemma_key_has_slot(k);
                    let i = choose|i: int| 0 <= i < self.names@.len() && self.names@[i]@ == k;
                    assert(names[i] == k);
                }
                if names.contains(k) {
                    let i = choose|i: int| 0 <= i < names.len() && names[i] == k;
                    assert(self.model@.contains_key(self.names@[i]@));
                }
            }
        }
        let mut names: Vec<String> = Vec::new();
        std::mem::swap(&mut names, &mut self.names);
        self.handles = Vec::new();
        self.model = Ghost(Map::empty());
        names
    }
}

} // verus!
