//! Worlds: identity-addressed collections of entities.

use vstd::prelude::*;

use crate::entity::Entity;
use crate::entity::all_muts;
use crate::entity::Id;
use vstd::pervasive::unreached;

verus! {

/// The identity value an attached entity carries; zero only as a placeholder
/// for the unattached, which a well-formed world never holds.
pub open spec fn ent_id<C>(e: Entity<C>) -> u64 {
    match e.spec_id() {
        Some(id) => id.spec_value(),
        None => 0,
    }
}

/// Well-formedness of a world's entity sequence against its identity
/// counter: every entity is well-formed and attached, identities strictly
/// ascend along the sequence, and all sit below the counter.
pub(crate) open spec fn entities_wf<C>(s: Seq<Entity<C>>, next: u64) -> bool {
    &&& forall|i: int| 0 <= i < s.len() ==> (#[trigger] s[i]).wf()
    &&& forall|i: int| 0 <= i < s.len() ==> (#[trigger] s[i]).spec_id() is Some
    &&& forall|i: int, j: int| 0 <= i < j < s.len() ==> ent_id(s[i]) < ent_id(s[j])
    &&& forall|i: int| 0 <= i < s.len() ==> ent_id(#[trigger] s[i]) < next
}

/// One step of a world's history, as far as identities are concerned.
pub enum HistoryStep {
    /// An insertion: returns the counter's value as the new identity and
    /// increments the counter, as [`World::insert`] ensures.
    Insert,
    /// A removal — or any other operation: leaves the counter unchanged, as
    /// [`World::remove`] ensures.
    Remove,
}

/// The identity counter after a history, starting from `start`: each
/// insertion increments it, nothing else touches it.
pub open spec fn counter_after(start: nat, ops: Seq<HistoryStep>) -> nat
    decreases ops.len(),
{
    if ops.len() == 0 {
        start
    } else {
        counter_after(start, ops.drop_last()) + if ops.last() is Insert {
            1nat
        } else {
            0nat
        }
    }
}

/// The identities a history's insertions return, in order: each insertion
/// mints the counter's value at that moment.
pub open spec fn minted_ids(start: nat, ops: Seq<HistoryStep>) -> Seq<nat>
    decreases ops.len(),
{
    if ops.len() == 0 {
        Seq::empty()
    } else {
        let pre = minted_ids(start, ops.drop_last());
        if ops.last() is Insert {
            pre.push(counter_after(start, ops.drop_last()))
        } else {
            pre
        }
    }
}

/// Every identity a history mints sits strictly below the counter that
/// follows the history.
pub proof fn lemma_minted_below_counter(start: nat, ops: Seq<HistoryStep>)
    ensures
        forall|i: int|
            0 <= i < minted_ids(start, ops).len() ==> minted_ids(start, ops)[i] < counter_after(
                start,
                ops,
            ),
    decreases ops.len(),
{
    if ops.len() > 0 {
        lemma_minted_below_counter(start, ops.drop_last());
        let pre = minted_ids(start, ops.drop_last());
        let c = counter_after(start, ops.drop_last());
        assert forall|i: int|
            0 <= i < minted_ids(start, ops).len() implies minted_ids(start, ops)[i]
            < counter_after(start, ops) by {
            if i < pre.len() {
                assert(minted_ids(start, ops)[i] == pre[i]);
                assert(pre[i] < c);
            } else {
                assert(minted_ids(start, ops)[i] == c);
            }
        }
    }
}

/// Identity monotonicity: along any history of insertions and removals on
/// one world, the identities the insertions return are strictly increasing —
/// each is strictly greater than all before it, and none is ever returned
/// twice, intervening removals notwithstanding.
pub proof fn lemma_identity_monotonicity(start: nat, ops: Seq<HistoryStep>)
    ensures
        forall|i: int, j: int|
            0 <= i < j < minted_ids(start, ops).len() ==> minted_ids(start, ops)[i] < minted_ids(
                start,
                ops,
            )[j],
    decreases ops.len(),
{
    if ops.len() > 0 {
        lemma_identity_monotonicity(start, ops.drop_last());
        lemma_minted_below_counter(start, ops.drop_last());
        let pre = minted_ids(start, ops.drop_last());
        let c = counter_after(start, ops.drop_last());
        assert forall|i: int, j: int|
            0 <= i < j < minted_ids(start, ops).len() implies minted_ids(start, ops)[i]
            < minted_ids(start, ops)[j] by {
            if j < pre.len() {
                assert(pre[i] < pre[j]);
            } else if ops.last() is Insert && j == pre.len() {
                assert(minted_ids(start, ops)[i] == pre[i]);
                assert(pre[i] < c);
                assert(minted_ids(start, ops)[j] == c);
            }
        }
    }
}

/// A world: the owner of a collection of entities, each addressed by the
/// identity minted for it on insertion.
///
/// Identities come from a monotonic counter, so iteration order — the order
/// of the world's view — is identity-ascending, deterministic, and
/// reproducible from the same history of insertions and removals.
pub struct World<C> {
    next: u64,
    entities: Vec<Entity<C>>,
}

impl<C> View for World<C> {
    type V = Seq<Entity<C>>;

    closed spec fn view(&self) -> Seq<Entity<C>> {
        self.entities@
    }
}

impl<C> World<C> {
    /// The counter the next identity will be minted from; strictly greater
    /// than every identity this world has ever handed out.
    pub closed spec fn spec_next(self) -> u64 {
        self.next
    }

    /// Well-formed: entities are well-formed and attached, their identities
    /// strictly ascend along the sequence, and all sit below the counter.
    /// Every world the public operations build or hand out is well-formed.
    pub closed spec fn wf(self) -> bool {
        entities_wf(self.entities@, self.next)
    }

    /// Whether some entity of the world carries identity `id`.
    pub open spec fn spec_contains_id(self, id: Id) -> bool {
        exists|i: int| 0 <= i < self@.len() && self@[i].spec_id() == Some(id)
    }

    /// The position of the entity carrying identity `id`; meaningful only
    /// when [`World::spec_contains_id`] holds, and then unique in a
    /// well-formed world.
    pub open spec fn spec_index_of(self, id: Id) -> int {
        choose|i: int| 0 <= i < self@.len() && self@[i].spec_id() == Some(id)
    }

    /// What well-formedness guarantees of the world's entities: each is
    /// well-formed and attached, identities strictly ascend along the view
    /// — so iteration order is identity-ascending — and every identity sits
    /// below the counter the next one will be minted from.
    pub proof fn lemma_wf_entities(self)
        requires
            self.wf(),
        ensures
            forall|i: int| 0 <= i < self@.len() ==> (#[trigger] self@[i]).wf(),
            forall|i: int| 0 <= i < self@.len() ==> (#[trigger] self@[i]).spec_id() is Some,
            forall|i: int, j: int| 0 <= i < j < self@.len() ==> ent_id(self@[i]) < ent_id(self@[j]),
            forall|i: int| 0 <= i < self@.len() ==> ent_id(#[trigger] self@[i]) < self.spec_next(),
    {
    }

    /// Creates an empty world.
    pub fn new() -> (w: World<C>)
        ensures
            w.wf(),
            w@ == Seq::<Entity<C>>::empty(),
            w.spec_next() == 0,
    {
        World { next: 0, entities: Vec::new() }
    }

    /// How many entities the world holds.
    pub fn len(&self) -> (n: usize)
        ensures
            n == self@.len(),
    {
        self.entities.len()
    }

    /// Takes ownership of `entity`, stamps a fresh identity on it — strictly
    /// greater than every identity this world minted before, never one reused
    /// after a removal — stores it last, and returns the identity.
    pub fn insert(&mut self, entity: Entity<C>) -> (id: Id)
        requires
            old(self).wf(),
            entity.wf(),
            old(self).spec_next() < u64::MAX,
        ensures
            final(self).wf(),
            id.spec_value() == old(self).spec_next(),
            final(self).spec_next() == old(self).spec_next() + 1,
            final(self)@.len() == old(self)@.len() + 1,
            forall|i: int| 0 <= i < old(self)@.len() ==> final(self)@[i] == old(self)@[i],
            final(self)@.last()@ == entity@,
            final(self)@.last().spec_id() == Some(id),
            final(self)@.last().wf(),
            final(self).spec_contains_id(id),
    {
        let id = Id::mint(self.next);
        let mut e = entity;
        e.set_id(id);
        self.next = self.next + 1;
        self.entities.push(e);
        proof {
            assert(self.entities@.last().spec_id() == Some(id));
            assert(entities_wf(self.entities@, self.next));
        }
        id
    }

    /// Detaches the entity carrying identity `id` and returns ownership of it
    /// to the caller, its identity cleared; `None` when the world holds no
    /// such entity. The identity is never minted again by this world.
    pub fn remove(&mut self, id: Id) -> (r: Option<Entity<C>>)
        requires
            old(self).wf(),
        ensures
            final(self).wf(),
            final(self).spec_next() == old(self).spec_next(),
            match r {
                Some(e) => {
                    &&& old(self).spec_contains_id(id)
                    &&& e.wf()
                    &&& e.spec_id() is None
                    &&& e@ == old(self)@[old(self).spec_index_of(id)]@
                    &&& final(self)@ == old(self)@.remove(old(self).spec_index_of(id))
                },
                None => {
                    &&& !old(self).spec_contains_id(id)
                    &&& final(self)@ == old(self)@
                },
            },
    {
        match self.find(id) {
            Some(i) => {
                proof {
                    assert(old(self).spec_contains_id(id));
                    assert(old(self).spec_index_of(id) == i as int);
                }
                let mut e = self.entities.remove(i);
                e.clear_id();
                Some(e)
            },
            None => None,
        }
    }

    /// A reference to the entity carrying identity `id`, or `None` when the
    /// world holds no such entity. Absence is not an error.
    pub fn get(&self, id: Id) -> (r: Option<&Entity<C>>)
        requires
            self.wf(),
        ensures
            match r {
                Some(e) => self.spec_contains_id(id) && *e == self@[self.spec_index_of(id)],
                None => !self.spec_contains_id(id),
            },
    {
        match self.find(id) {
            Some(i) => Some(&self.entities[i]),
            None => None,
        }
    }

    /// A mutable reference to the entity carrying identity `id`, or `None`
    /// when the world holds no such entity. As long as the caller leaves the
    /// entity well-formed and its identity in place, the world stays
    /// well-formed.
    pub fn get_mut(&mut self, id: Id) -> (r: Option<&mut Entity<C>>)
        requires
            old(self).wf(),
        ensures
            r.is_some() ==> {
                &&& old(self).spec_contains_id(id)
                &&& *r.unwrap() == old(self)@[old(self).spec_index_of(id)]
                &&& final(self)@ == old(self)@.update(
                    old(self).spec_index_of(id),
                    *final(r.unwrap()),
                )
                &&& final(self).spec_next() == old(self).spec_next()
                &&& (final(r.unwrap()).wf() && final(r.unwrap()).spec_id() == Some(id))
                    ==> final(self).wf()
            },
            r.is_none() ==> {
                &&& !old(self).spec_contains_id(id)
                &&& *final(self) == *old(self)
            },
    {
        match self.find(id) {
            Some(i) => Some(&mut self.entities[i]),
            None => None,
        }
    }

    /// A reference to the entity at position `i` in identity-ascending
    /// order.
    pub fn at(&self, i: usize) -> (e: &Entity<C>)
        requires
            i < self@.len(),
        ensures
            *e == self@[i as int],
    {
        &self.entities[i]
    }

    /// A mutable reference to the entity at position `i` in
    /// identity-ascending order. As long as the caller leaves the entity
    /// well-formed and its identity in place, the world stays well-formed.
    pub fn at_mut(&mut self, i: usize) -> (e: &mut Entity<C>)
        requires
            i < old(self)@.len(),
        ensures
            *e == old(self)@[i as int],
            final(self)@ == old(self)@.update(i as int, *final(e)),
            final(self).spec_next() == old(self).spec_next(),
            (old(self).wf() && final(e).wf() && final(e).spec_id() == old(self)@[i as int].spec_id())
                ==> final(self).wf(),
    {
        &mut self.entities[i]
    }

    /// References to all entities, in identity-ascending order.
    pub fn iter(&self) -> (r: Vec<&Entity<C>>)
        ensures
            r@.len() == self@.len(),
            forall|i: int| 0 <= i < r@.len() ==> *r@[i] == self@[i],
    {
        let mut r: Vec<&Entity<C>> = Vec::new();
        let mut i: usize = 0;
        while i < self.entities.len()
            invariant
                i <= self.entities@.len(),
                r@.len() == i,
                forall|j: int| 0 <= j < i ==> *r@[j] == self.entities@[j],
            decreases self.entities@.len() - i,
        {
            r.push(&self.entities[i]);
            i += 1;
        }
        r
    }

    /// Mutable references to all entities, in identity-ascending order,
    /// taken simultaneously from one exclusive borrow of the world: distinct
    /// entities are disjoint storage. As long as the caller leaves every
    /// entity well-formed and its identity in place, the world stays
    /// well-formed.
    pub fn iter_mut(&mut self) -> (r: Vec<&mut Entity<C>>)
        ensures
            r@.len() == old(self)@.len(),
            forall|i: int| 0 <= i < r@.len() ==> *r@[i] == old(self)@[i],
            final(self)@.len() == old(self)@.len(),
            forall|i: int| 0 <= i < r@.len() ==> final(self)@[i] == *final(r@[i]),
            final(self).spec_next() == old(self).spec_next(),
            (old(self).wf() && (forall|i: int|
                0 <= i < final(self)@.len() ==> (#[trigger] final(self)@[i]).wf()
                    && final(self)@[i].spec_id() == old(self)@[i].spec_id())) ==> final(self).wf(),
    {
        all_muts(&mut self.entities)
    }

    /// The identities of all entities, in ascending order.
    pub fn ids(&self) -> (r: Vec<Id>)
        requires
            self.wf(),
        ensures
            r@.len() == self@.len(),
            forall|i: int| 0 <= i < r@.len() ==> Some(r@[i]) == self@[i].spec_id(),
    {
        let mut r: Vec<Id> = Vec::new();
        let mut i: usize = 0;
        while i < self.entities.len()
            invariant
                self.wf(),
                i <= self.entities@.len(),
                r@.len() == i,
                forall|j: int| 0 <= j < i ==> Some(r@[j]) == self.entities@[j].spec_id(),
            decreases self.entities@.len() - i,
        {
            match self.entities[i].id() {
                Some(id) => r.push(id),
                None => unreached(),
            }
            i += 1;
        }
        r
    }

    /// Direct access to the entity carrying identity `id`. Asking for an
    /// identity the world does not hold is a contract violation by the
    /// caller, so the identity's presence is required.
    pub fn index(&self, id: Id) -> (e: &Entity<C>)
        requires
            self.wf(),
            self.spec_contains_id(id),
        ensures
            *e == self@[self.spec_index_of(id)],
    {
        match self.get(id) {
            Some(e) => e,
            None => unreached(),
        }
    }

    /// Direct mutable access to the entity carrying identity `id`. Asking
    /// for an identity the world does not hold is a contract violation by
    /// the caller, so the identity's presence is required.
    pub fn index_mut(&mut self, id: Id) -> (e: &mut Entity<C>)
        requires
            old(self).wf(),
            old(self).spec_contains_id(id),
        ensures
            *e == old(self)@[old(self).spec_index_of(id)],
            final(self)@ == old(self)@.update(old(self).spec_index_of(id), *final(e)),
            final(self).spec_next() == old(self).spec_next(),
            (final(e).wf() && final(e).spec_id() == Some(id)) ==> final(self).wf(),
    {
        match self.get_mut(id) {
            Some(e) => e,
            None => unreached(),
        }
    }

    /// The position of the entity carrying identity `id`, if any.
    fn find(&self, id: Id) -> (r: Option<usize>)
        requires
            self.wf(),
        ensures
            match r {
                Some(i) => i < self@.len() && self@[i as int].spec_id() == Some(id),
                None => !self.spec_contains_id(id),
            },
    {
        let mut i: usize = 0;
        while i < self.entities.len()
            invariant
                i <= self.entities@.len(),
                forall|j: int| 0 <= j < i ==> self.entities@[j].spec_id() != Some(id),
            decreases self.entities@.len() - i,
        {
            let e = &self.entities[i];
            match e.id() {
                Some(eid) => {
                    if eid.value() == id.value() {
                        proof {
                            Id::lemma_value_determines_id(eid, id);
                        }
                        return Some(i);
                    }
                },
                None => {},
            }
            i += 1;
        }
        None
    }
}

} // verus!
