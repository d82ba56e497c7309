use vstd::prelude::*;

verus! {

/// Entries under identifiers that a counter hands out, each at most once; the
/// entries stay in the order of their identifiers.
pub struct Registry<T> {
    ids: Vec<u64>,
    values: Vec<T>,
    next_id: u64,
}

impl<T> Registry<T> {
    pub closed spec fn wf(&self) -> bool {
        &&& self.ids.len() == self.values.len()
        &&& forall|i: int, j: int|
            0 <= i < j < self.ids.len() ==> #[trigger] self.ids@[i] < #[trigger] self.ids@[j]
        &&& forall|i: int| 0 <= i < self.ids.len() ==> #[trigger] self.ids@[i] < self.next_id
    }

    /// The identifiers of the entries, in order.
    pub closed spec fn id_seq(&self) -> Seq<u64> {
        self.ids@
    }

    /// The entries, in the order of their identifiers.
    pub closed spec fn entries(&self) -> Seq<T> {
        self.values@
    }

    /// The identifiers in use.
    pub open spec fn keys(&self) -> Set<nat> {
        Set::new(|x: nat| x <= u64::MAX && self.id_seq().contains(x as u64))
    }

    /// How many identifiers were handed out.
    pub closed spec fn issued(&self) -> nat {
        self.next_id as nat
    }

    pub proof fn lemma_wf(&self)
        requires
            self.wf(),
        ensures
            self.id_seq().len() == self.entries().len(),
            self.id_seq().no_duplicates(),
            self.keys().is_empty() == (self.entries().len() == 0),
            forall|i: int| 0 <= i < self.id_seq().len() ==> #[trigger] self.id_seq()[i] < self.issued(),
    {
        if self.ids.len() == 0 {
            assert(self.keys() =~= Set::<nat>::empty());
        } else {
            assert(self.keys().contains(self.ids@[0] as nat));
        }
    }

    pub fn new() -> (r: Self)
        ensures
            r.wf(),
            r.keys() == Set::<nat>::empty(),
            r.id_seq().len() == 0,
            r.entries().len() == 0,
            r.issued() == 0,
    {
        let r = Registry { ids: Vec::new(), values: Vec::new(), next_id: 0 };
        assert(r.keys() =~= Set::<nat>::empty());
        r
    }

    /// Adds `value` under the next identifier, which it returns.
    pub fn insert(&mut self, value: T) -> (id: u64)
        requires
            old(self).wf(),
            old(self).issued() < u64::MAX,
        ensures
            final(self).wf(),
            id == old(self).issued(),
            !old(self).keys().contains(id as nat),
            final(self).keys() == old(self).keys().insert(id as nat),
            final(self).issued() == old(self).issued() + 1,
            final(self).id_seq() == old(self).id_seq().push(id),
            final(self).entries() == old(self).entries().push(value),
    {
        let id = self.next_id;
        self.ids.push(id);
        self.values.push(value);
        self.next_id = self.next_id + 1;
        proof {
            let old_ids = old(self).ids@;
            assert forall|x: u64| #[trigger] self.ids@.contains(x) <==> (old_ids.contains(x) || x == id) by {
                if old_ids.contains(x) {
                    let i = old_ids.index_of(x);
                    assert(self.ids@[i] == x);
                }
                if x == id {
                    assert(self.ids@[old_ids.len() as int] == x);
                }
            }
            assert(self.keys() =~= old(self).keys().insert(id as nat));
        }
        id
    }

    fn find(&self, id: u64) -> (r: Option<usize>)
        requires
            self.wf(),
        ensures
            match r {
                Some(i) => i < self.ids.len() && self.ids@[i as int] == id,
                None => !self.ids@.contains(id),
            },
    {
        let mut i: usize = 0;
        while i < self.ids.len()
            invariant
                i <= self.ids.len(),
                forall|k: int| 0 <= k < i ==> self.ids@[k] != id,
            decreases self.ids.len() - i,
        {
            if self.ids[i] == id {
                return Some(i);
            }
            i = i + 1;
        }
        None
    }

    /// Removes the entry under `id`, if there is one, and returns it.
    pub fn remove(&mut self, id: u64) -> (r: Option<T>)
        requires
            old(self).wf(),
        ensures
            final(self).wf(),
            final(self).keys() == old(self).keys().remove(id as nat),
            final(self).issued() == old(self).issued(),
            r.is_some() == old(self).keys().contains(id as nat),
            r.is_none() ==> final(self).entries() == old(self).entries() && final(self).id_seq()
                == old(self).id_seq(),
            r.is_some() ==> exists|i: int|
                0 <= i < old(self).id_seq().len()
                && old(self).id_seq()[i] == id
                && r == Some(old(self).entries()[i])
                && final(self).entries() == old(self).entries().remove(i)
                && final(self).id_seq() == old(self).id_seq().remove(i),
    {
        match self.find(id) {
            Some(i) => {
                let ghost old_ids = self.ids@;
                self.ids.remove(i);
                let v = self.values.remove(i);
                proof {
                    assert forall|x: u64| #[trigger] self.ids@.contains(x) <==> (old_ids.contains(x) && x != id) by {
                        if self.ids@.contains(x) {
                            let k = self.ids@.index_of(x);
                            if k < i {
                                assert(old_ids[k] == x);
                            } else {
                                assert(old_ids[k + 1] == x);
                            }
                        }
                        if old_ids.contains(x) && x != id {
                            let k = old_ids.index_of(x);
                            if k < i {
                                assert(self.ids@[k] == x);
                            } else {
                                assert(self.ids@[k - 1] == x);
                            }
                        }
                    }
                    assert(self.keys() =~= old(self).keys().remove(id as nat));
                    assert(old(self).id_seq()[i as int] == id);
                }
                Some(v)
            },
            None => {
                proof {
                    assert(self.keys() =~= old(self).keys().remove(id as nat));
                }
                None
            },
        }
    }

    /// Puts `value` in place of the entry under `id` if there is one;
    /// otherwise hands `value` back.
    pub fn replace(&mut self, id: u64, value: T) -> (r: Option<T>)
        requires
            old(self).wf(),
        ensures
            final(self).wf(),
            final(self).keys() == old(self).keys(),
            final(self).issued() == old(self).issued(),
            final(self).id_seq() == old(self).id_seq(),
            r == if old(self).keys().contains(id as nat) {
                None
            } else {
                Some(value)
            },
            r.is_none() ==> exists|i: int|
                0 <= i < old(self).id_seq().len()
                && old(self).id_seq()[i] == id
                && final(self).entries() == old(self).entries().update(i, value),
            r.is_some() ==> final(self).entries() == old(self).entries(),
    {
        match self.find(id) {
            Some(i) => {
                self.values.set(i, value);
                None
            },
            None => Some(value),
        }
    }

    /// Takes out every entry, in order; the identifiers stay used.
    pub fn take_all(&mut self) -> (r: Vec<T>)
        requires
            old(self).wf(),
        ensures
            final(self).wf(),
            final(self).keys() == Set::<nat>::empty(),
            final(self).id_seq().len() == 0,
            final(self).entries().len() == 0,
            final(self).issued() == old(self).issued(),
            r@ == old(self).entries(),
    {
        let mut out: Vec<T> = Vec::new();
        std::mem::swap(&mut out, &mut self.values);
        self.ids = Vec::new();
        proof {
            assert(self.keys() =~= Set::<nat>::empty());
        }
        out
    }

    /// The entries, in the order of their identifiers.
    pub fn values(&self) -> (r: &Vec<T>)
        ensures
            r@ == self.entries(),
    {
        &self.values
    }

    /// Whether another identifier can be handed out.
    pub fn has_room(&self) -> (r: bool)
        ensures
            r == (self.issued() < u64::MAX),
    {
        self.next_id < u64::MAX
    }

    pub fn is_empty(&self) -> (r: bool)
        requires
            self.wf(),
        ensures
            r == self.keys().is_empty(),
    {
        proof {
            self.lemma_wf();
        }
        self.ids.len() == 0
    }
}

} // verus!
