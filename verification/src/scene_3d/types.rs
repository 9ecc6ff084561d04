use vstd::prelude::*;
use std::collections::HashMap;

verus! {

/// Values stored under ids that the map hands out itself, counting up
/// from 1, so that an id is never given twice.
pub struct DataMap<T> {
    pub data: HashMap<usize, T>,
    next_id: usize,
}

impl<T> DataMap<T> {
    /// The id the next insertion gets.
    pub closed spec fn spec_next_id(&self) -> usize {
        self.next_id
    }

    /// The stored values by id.
    pub closed spec fn spec_data(&self) -> Map<usize, T> {
        self.data@
    }

    /// Every stored id was handed out already, and 0 never is.
    pub open spec fn wf(&self) -> bool {
        &&& self.spec_next_id() >= 1
        &&& forall|k: usize| #[trigger] self.spec_data().contains_key(k) ==> 1 <= k < self.spec_next_id()
    }
}

impl<T> Default for DataMap<T> {
    /// An empty map; the first id is 1.
    fn default() -> (r: Self)
        ensures
            r.spec_data() == Map::<usize, T>::empty(),
            r.spec_next_id() == 1,
            r.wf(),
    {
        Self { data: HashMap::new(), next_id: 1 }
    }
}

/// `HashMap::get_mut` of std: a mutable reference to the value under `k`,
/// if there is one. Claimed: `None` exactly when `k` is absent, leaving the
/// map as it was; otherwise the reference starts at the stored value and
/// the map afterwards holds, under `k`, what the reference was left at,
/// all other entries unchanged.
#[verifier::external_body]
fn hash_map_get_mut<'a, T>(m: &'a mut HashMap<usize, T>, k: &usize) -> (r: Option<&'a mut T>)
    ensures
        match r {
            Some(v) => {
                &&& old(m)@.contains_key(*k)
                &&& *v == old(m)@[*k]
                &&& final(m)@ == old(m)@.insert(*k, *final(v))
            },
            None => {
                &&& !old(m)@.contains_key(*k)
                &&& final(m)@ == old(m)@
            },
        },
{
    m.get_mut(k)
}

impl<T> DataMap<T> {
    /// Stores `data` under a new id and returns the id.
    pub fn insert(&mut self, data: T) -> (id: usize)
        requires
            old(self).spec_next_id() < usize::MAX,
        ensures
            id == old(self).spec_next_id(),
            final(self).spec_next_id() == id + 1,
            final(self).spec_data() == old(self).spec_data().insert(id, data),
            old(self).wf() ==> final(self).wf() && !old(self).spec_data().contains_key(id),
    {
        let id = self.next_id;
        self.next_id = self.next_id + 1;
        self.data.insert(id, data);
        proof {
            if old(self).wf() {
                assert forall|k: usize| #[trigger] self.spec_data().contains_key(k) implies 1 <= k
                    < self.spec_next_id() by {
                    if k != id {
                        assert(old(self).spec_data().contains_key(k));
                    }
                }
            }
        }
        id
    }

    /// The value stored under `id`, if any.
    pub fn get(&self, id: &usize) -> (r: Option<&T>)
        ensures
            match r {
                Some(v) => self.spec_data().contains_key(*id) && *v == self.spec_data()[*id],
                None => !self.spec_data().contains_key(*id),
            },
    {
        self.data.get(id)
    }

    /// A mutable reference to the value stored under `id`, if any.
    pub fn get_mut(&mut self, id: &usize) -> (r: Option<&mut T>)
        ensures
            final(self).spec_next_id() == old(self).spec_next_id(),
            match r {
                Some(v) => {
                    &&& old(self).spec_data().contains_key(*id)
                    &&& *v == old(self).spec_data()[*id]
                    &&& final(self).spec_data() == old(self).spec_data().insert(*id, *final(v))
                },
                None => {
                    &&& !old(self).spec_data().contains_key(*id)
                    &&& final(self).spec_data() == old(self).spec_data()
                },
            },
    {
        hash_map_get_mut(&mut self.data, id)
    }

    /// Takes the value stored under `id` out of the map, if any.
    pub fn remove(&mut self, id: &usize) -> (r: Option<T>)
        ensures
            final(self).spec_next_id() == old(self).spec_next_id(),
            final(self).spec_data() == old(self).spec_data().remove(*id),
            match r {
                Some(v) => old(self).spec_data().contains_key(*id) && v == old(self).spec_data()[*id],
                None => !old(self).spec_data().contains_key(*id),
            },
            old(self).wf() ==> final(self).wf(),
    {
        self.data.remove(id)
    }
}

/// What `insert` stores under the id it gives back is what `get` then
/// finds there, and every other id finds what it found before.
pub proof fn law_insert_then_get<T>(before: DataMap<T>, after: DataMap<T>, id: usize, data: T, other: usize)
    requires
        after.spec_data() == before.spec_data().insert(id, data),
        other != id,
    ensures
        after.spec_data().contains_key(id),
        after.spec_data()[id] == data,
        after.spec_data().contains_key(other) == before.spec_data().contains_key(other),
        before.spec_data().contains_key(other) ==> after.spec_data()[other] == before.spec_data()[other],
{
}

/// After `remove` of an id, `get` finds nothing there, and every other id
/// finds what it found before.
pub proof fn law_remove_then_get<T>(before: DataMap<T>, after: DataMap<T>, id: usize, other: usize)
    requires
        after.spec_data() == before.spec_data().remove(id),
        other != id,
    ensures
        !after.spec_data().contains_key(id),
        after.spec_data().contains_key(other) == before.spec_data().contains_key(other),
        before.spec_data().contains_key(other) ==> after.spec_data()[other] == before.spec_data()[other],
{
}

/// An id is never given twice: in a consistent map, the id that `insert`
/// gives is held by no entry and is larger than every id held. Since no
/// operation lowers the next id (see their contracts), every id given
/// later is larger still.
pub proof fn law_fresh_ids<T>(before: DataMap<T>, id: usize)
    requires
        before.wf(),
        id == before.spec_next_id(),
    ensures
        !before.spec_data().contains_key(id),
        forall|k: usize| #[trigger] before.spec_data().contains_key(k) ==> k < id,
{
}

} // verus!
