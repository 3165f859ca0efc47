//! Entities: sparse, keyed bags of component values.

use vstd::prelude::*;

use crate::component::Component;
use vstd::pervasive::VecAdditionalExecFns;
use vstd::pervasive::unreached;

verus! {

/// The identity of an entity within a [`crate::World`].
///
/// A world mints identities from a monotonic counter: every identity is
/// strictly greater than all identities the same world minted before it, and
/// an identity is never handed out twice, even after the entity that carried
/// it is removed.
#[derive(Clone, Copy, PartialEq, Eq, Structural, PartialOrd, Ord, Hash, Debug)]
pub struct Id {
    value: u64,
}

impl Id {
    /// The counter value this identity was minted from.
    pub closed spec fn spec_value(self) -> u64 {
        self.value
    }

    /// Returns the counter value this identity was minted from.
    pub fn value(self) -> (v: u64)
        ensures
            v == self.spec_value(),
    {
        self.value
    }

    /// Only a world mints identities.
    pub(crate) fn mint(value: u64) -> (id: Id)
        ensures
            id.spec_value() == value,
    {
        Id { value }
    }

    /// An identity is nothing but its counter value.
    pub proof fn lemma_value_determines_id(a: Id, b: Id)
        requires
            a.spec_value() == b.spec_value(),
        ensures
            a == b,
    {
    }
}

/// One component slot of an entity: a storage key paired with the component
/// value stored under it.
pub(crate) struct Slot<C> {
    pub key: u64,
    pub value: C,
}

/// The keyed map that a sequence of slots stores: later slots shadow earlier
/// ones, though a well-formed entity never holds the same key twice.
pub(crate) open spec fn slots_map<C>(s: Seq<Slot<C>>) -> Map<u64, C>
    decreases s.len(),
{
    if s.len() == 0 {
        Map::empty()
    } else {
        slots_map(s.drop_last()).insert(s.last().key, s.last().value)
    }
}

/// Whether no two slots of `s` share a key.
pub(crate) open spec fn distinct_keys<C>(s: Seq<Slot<C>>) -> bool {
    forall|i: int, j: int|
        0 <= i < s.len() && 0 <= j < s.len() && i != j ==> s[i].key != s[j].key
}

/// A key is in the stored map exactly when some slot carries it.
pub(crate) proof fn lemma_slots_map_dom<C>(s: Seq<Slot<C>>, k: u64)
    ensures
        slots_map(s).contains_key(k) <==> exists|i: int| 0 <= i < s.len() && s[i].key == k,
    decreases s.len(),
{
    if s.len() > 0 {
        lemma_slots_map_dom(s.drop_last(), k);
        if s.last().key != k {
            if exists|i: int| 0 <= i < s.len() && s[i].key == k {
                let i = choose|i: int| 0 <= i < s.len() && s[i].key == k;
                assert(0 <= i < s.len() - 1 && s.drop_last()[i].key == k);
            }
        }
    }
}

/// With distinct keys, the slot that carries a key determines the stored
/// value under it.
pub(crate) proof fn lemma_slots_map_index<C>(s: Seq<Slot<C>>, i: int)
    requires
        distinct_keys(s),
        0 <= i < s.len(),
    ensures
        slots_map(s).contains_key(s[i].key),
        slots_map(s)[s[i].key] == s[i].value,
    decreases s.len(),
{
    lemma_slots_map_dom(s, s[i].key);
    if i < s.len() - 1 {
        assert(s.drop_last()[i] == s[i]);
        lemma_slots_map_index(s.drop_last(), i);
        assert(s.last().key != s[i].key);
    }
}

/// Adding a slot with a fresh key keeps the keys distinct.
pub(crate) proof fn lemma_distinct_push<C>(s: Seq<Slot<C>>, x: Slot<C>)
    requires
        distinct_keys(s),
        !slots_map(s).contains_key(x.key),
    ensures
        distinct_keys(s.push(x)),
        slots_map(s.push(x)) == slots_map(s).insert(x.key, x.value),
{
    lemma_slots_map_dom(s, x.key);
    assert(forall|i: int| 0 <= i < s.len() ==> s[i].key != x.key);
    assert(s.push(x).drop_last() =~= s);
}

/// Replacing the slot at one position, keeping its key, rewrites the stored
/// map at that key alone.
pub(crate) broadcast proof fn lemma_slots_map_update<C>(s: Seq<Slot<C>>, i: int, x: Slot<C>)
    requires
        distinct_keys(s),
        0 <= i < s.len(),
        x.key == s[i].key,
    ensures
        distinct_keys(#[trigger] s.update(i, x)),
        slots_map(s.update(i, x)) == slots_map(s).insert(x.key, x.value),
    decreases s.len(),
{
    let s2 = s.update(i, x);
    assert(forall|j: int| 0 <= j < s.len() ==> s2[j].key == s[j].key);
    if i == s.len() - 1 {
        assert(s2.drop_last() =~= s.drop_last());
        assert(slots_map(s2) =~= slots_map(s).insert(x.key, x.value));
    } else {
        assert(s2.drop_last() =~= s.drop_last().update(i, x));
        lemma_slots_map_update(s.drop_last(), i, x);
        assert(s[i].key != s.last().key);
        assert(slots_map(s2) =~= slots_map(s).insert(x.key, x.value));
    }
}

/// Dropping one slot removes exactly that slot's key from the stored map.
pub(crate) proof fn lemma_slots_map_remove<C>(s: Seq<Slot<C>>, i: int)
    requires
        distinct_keys(s),
        0 <= i < s.len(),
    ensures
        distinct_keys(s.remove(i)),
        slots_map(s.remove(i)) == slots_map(s).remove(s[i].key),
    decreases s.len(),
{
    assert(forall|j: int| 0 <= j < s.len() - 1 ==> s.remove(i)[j] == if j < i {
        s[j]
    } else {
        s[j + 1]
    });
    if i == s.len() - 1 {
        assert(s.remove(i) =~= s.drop_last());
        lemma_slots_map_dom(s.drop_last(), s[i].key);
        assert(slots_map(s.remove(i)) =~= slots_map(s).remove(s[i].key));
    } else {
        assert(s.remove(i).drop_last() =~= s.drop_last().remove(i));
        lemma_slots_map_remove(s.drop_last(), i);
        assert(s.remove(i).last() == s.last());
        assert(s[i].key != s.last().key);
        assert(slots_map(s.remove(i)) =~= slots_map(s).remove(s[i].key));
    }
}

/// Mutable references to two distinct positions of one vector, obtained from
/// a single exclusive borrow by splitting the underlying slice.
pub(crate) fn two_muts<T>(v: &mut Vec<T>, i: usize, j: usize) -> (r: (&mut T, &mut T))
    requires
        i < j < old(v)@.len(),
    ensures
        *r.0 == old(v)@[i as int],
        *r.1 == old(v)@[j as int],
        final(v)@ == old(v)@.update(i as int, *final(r.0)).update(j as int, *final(r.1)),
{
    let s = v.as_mut_slice();
    let (left, right) = s.split_at_mut(j);
    let (_low, mid) = left.split_at_mut(i);
    let a = mid.first_mut().unwrap();
    let b = right.first_mut().unwrap();
    (a, b)
}

/// Mutable references to three distinct positions of one vector, obtained
/// from a single exclusive borrow by splitting the underlying slice.
pub(crate) fn three_muts<T>(v: &mut Vec<T>, i: usize, j: usize, k: usize) -> (r: (
    &mut T,
    &mut T,
    &mut T,
))
    requires
        i < j < k < old(v)@.len(),
    ensures
        *r.0 == old(v)@[i as int],
        *r.1 == old(v)@[j as int],
        *r.2 == old(v)@[k as int],
        final(v)@ == old(v)@.update(i as int, *final(r.0)).update(j as int, *final(r.1)).update(
            k as int,
            *final(r.2),
        ),
{
    let s = v.as_mut_slice();
    let (left, right) = s.split_at_mut(k);
    let (low, mid_j) = left.split_at_mut(j);
    let (_lowest, mid_i) = low.split_at_mut(i);
    let a = mid_i.first_mut().unwrap();
    let b = mid_j.first_mut().unwrap();
    let c = right.first_mut().unwrap();
    (a, b, c)
}

/// Sparse get/has consistency: for every entity and kind, `has` answers
/// exactly whether `get` finds something.
pub proof fn lemma_has_get_consistent<C, T: Component<Enum = C>>(e: Entity<C>)
    ensures
        e.spec_has::<T>() == (e.spec_get::<T>() is Some),
{
}

/// Adding replaces: whatever binding the storage held at kind `T`'s key
/// before — `m` is the storage as it was — a get after an add of `v` reads
/// `v`, and the prior value is gone from the entity.
pub proof fn lemma_add_replaces<C, T: Component<Enum = C>>(m: Map<u64, C>, e: Entity<C>, v: T::Type)
    requires
        e@ == m.insert(T::spec_key(), T::spec_make(v)),
    ensures
        e.spec_get::<T>() == Some(v),
{
    T::case_agrees(v);
}

/// Mutation visibility: after the two-kind mutable map's references are
/// written through — leaving the storage rewritten at the two keys, as
/// [`Entity::get2_mut`] ensures — a get on the same entity reads the written
/// values.
pub proof fn lemma_mutation_visible<C, T1: Component<Enum = C>, T2: Component<Enum = C>>(
    m: Map<u64, C>,
    e: Entity<C>,
    w1: T1::Type,
    w2: T2::Type,
)
    requires
        T1::spec_key() != T2::spec_key(),
        e@ == m.insert(T1::spec_key(), T1::spec_make(w1)).insert(T2::spec_key(), T2::spec_make(w2)),
    ensures
        e.spec_get::<T1>() == Some(w1),
        e.spec_get::<T2>() == Some(w2),
{
    T1::case_agrees(w1);
    T2::case_agrees(w2);
}

/// Mutable references to every position of one slice, obtained from a
/// single exclusive borrow by peeling the slice one element at a time.
pub(crate) fn all_muts_slice<T>(s: &mut [T]) -> (r: Vec<&mut T>)
    ensures
        r@.len() == old(s)@.len(),
        forall|i: int| 0 <= i < r@.len() ==> *r@[i] == old(s)@[i],
        final(s)@.len() == old(s)@.len(),
        forall|i: int| 0 <= i < r@.len() ==> final(s)@[i] == *final(r@[i]),
    decreases old(s)@.len(),
{
    if s.len() == 0 {
        Vec::new()
    } else {
        let (head, tail) = s.split_at_mut(1);
        let ghost t0 = tail@;
        let first = head.first_mut().unwrap();
        let mut r = all_muts_slice(tail);
        let ghost rr = r@;
        r.insert(0, first);
        proof {
            assert forall|i: int| 1 <= i < r@.len() implies *r@[i] == old(s)@[i] by {
                assert(r@[i] == rr[i - 1]);
                assert(*rr[i - 1] == t0[i - 1]);
                assert(t0[i - 1] == old(s)@[i]);
            }
        }
        r
    }
}

/// Mutable references to every position of one vector, obtained from a
/// single exclusive borrow.
pub(crate) fn all_muts<T>(v: &mut Vec<T>) -> (r: Vec<&mut T>)
    ensures
        r@.len() == old(v)@.len(),
        forall|i: int| 0 <= i < r@.len() ==> *r@[i] == old(v)@[i],
        final(v)@.len() == old(v)@.len(),
        forall|i: int| 0 <= i < r@.len() ==> final(v)@[i] == *final(r@[i]),
{
    all_muts_slice(v.as_mut_slice())
}

/// An entity: at most one component value per declared kind, stored under the
/// kind's key, plus the identity the owning world stamped on it.
///
/// An entity built with [`Entity::new`] is unattached and has no identity;
/// inserting it into a [`crate::World`] mints one. In specifications an
/// entity's storage is viewed as a [`Map`] from storage keys to component
/// values.
pub struct Entity<C> {
    id: Option<Id>,
    components: Vec<Slot<C>>,
}

impl<C> View for Entity<C> {
    type V = Map<u64, C>;

    closed spec fn view(&self) -> Map<u64, C> {
        slots_map(self.components@)
    }
}

impl<C> Entity<C> {
    /// The identity stamped by the owning world, if the entity is attached.
    pub closed spec fn spec_id(self) -> Option<Id> {
        self.id
    }

    /// Well-formed: no storage key is held twice. Every entity the public
    /// operations build or hand out is well-formed.
    pub closed spec fn wf(self) -> bool {
        distinct_keys(self.components@)
    }

    /// What [`Entity::get`] returns for kind `T`: the stored payload, present
    /// exactly when the entity holds `T`'s key and the stored value carries
    /// `T`'s case.
    pub open spec fn spec_get<T: Component<Enum = C>>(self) -> Option<T::Type> {
        if self@.contains_key(T::spec_key()) && T::is_case(self@[T::spec_key()]) {
            Some(T::spec_value(self@[T::spec_key()]))
        } else {
            None
        }
    }

    /// What [`Entity::has`] returns for kind `T`.
    pub open spec fn spec_has<T: Component<Enum = C>>(self) -> bool {
        self.spec_get::<T>() is Some
    }

    /// Creates an empty entity, holding no components and no identity.
    pub fn new() -> (e: Entity<C>)
        ensures
            e.wf(),
            e@ == Map::<u64, C>::empty(),
            e.spec_id() is None,
    {
        Entity { id: None, components: Vec::new() }
    }

    /// The entity's identity, if a world has stamped one on it.
    pub fn id(&self) -> (r: Option<Id>)
        ensures
            r == self.spec_id(),
    {
        self.id
    }

    /// Only a world attaches identities.
    pub(crate) fn set_id(&mut self, id: Id)
        ensures
            final(self).spec_id() == Some(id),
            final(self)@ == old(self)@,
            final(self).wf() == old(self).wf(),
    {
        self.id = Some(id);
    }

    /// Only a world detaches identities.
    pub(crate) fn clear_id(&mut self)
        ensures
            final(self).spec_id() is None,
            final(self)@ == old(self)@,
            final(self).wf() == old(self).wf(),
    {
        self.id = None;
    }

    /// The position of the slot keyed `key`, if the entity holds one.
    fn find(&self, key: u64) -> (r: Option<usize>)
        ensures
            match r {
                Some(i) => i < self.components@.len() && self.components@[i as int].key == key,
                None => forall|j: int|
                    0 <= j < self.components@.len() ==> self.components@[j].key != key,
            },
    {
        let mut i: usize = 0;
        while i < self.components.len()
            invariant
                i <= self.components@.len(),
                forall|j: int| 0 <= j < i ==> self.components@[j].key != key,
            decreases self.components@.len() - i,
        {
            if self.components[i].key == key {
                return Some(i);
            }
            i += 1;
        }
        None
    }

    /// A reference to the payload stored for kind `T`, or `None` when the
    /// entity does not hold that kind. Absence is not an error.
    pub fn get<T: Component<Enum = C>>(&self) -> (r: Option<&T::Type>)
        requires
            self.wf(),
        ensures
            match r {
                Some(v) => self.spec_get::<T>() == Some(*v),
                None => self.spec_get::<T>() is None,
            },
    {
        match self.find(T::key()) {
            Some(i) => {
                proof {
                    lemma_slots_map_index(self.components@, i as int);
                }
                T::try_val(&self.components[i].value)
            },
            None => {
                proof {
                    lemma_slots_map_dom(self.components@, T::spec_key());
                }
                None
            },
        }
    }

    /// Whether the entity holds kind `T`; equal to `get::<T>().is_some()`.
    pub fn has<T: Component<Enum = C>>(&self) -> (r: bool)
        requires
            self.wf(),
        ensures
            r == self.spec_has::<T>(),
    {
        self.get::<T>().is_some()
    }

    /// Stores `value` under kind `T`'s key. If the entity already held that
    /// key, the prior payload is dropped and replaced — last write wins — and
    /// handed back to the caller.
    pub fn add<T: Component<Enum = C>>(&mut self, value: T::Type) -> (prior: Option<T::Type>)
        requires
            old(self).wf(),
        ensures
            final(self).wf(),
            final(self).spec_id() == old(self).spec_id(),
            final(self)@ == old(self)@.insert(T::spec_key(), T::spec_make(value)),
            match prior {
                Some(p) => old(self).spec_get::<T>() == Some(p),
                None => old(self).spec_get::<T>() is None,
            },
    {
        let k = T::key();
        let c = T::new(value);
        match self.find(k) {
            Some(i) => {
                proof {
                    lemma_slots_map_index(self.components@, i as int);
                    lemma_slots_map_update(
                        self.components@,
                        i as int,
                        Slot { key: k, value: T::spec_make(value) },
                    );
                }
                let mut slot = Slot { key: k, value: c };
                self.components.set_and_swap(i, &mut slot);
                T::into_val(slot.value)
            },
            None => {
                proof {
                    lemma_slots_map_dom(self.components@, T::spec_key());
                    lemma_distinct_push(
                        self.components@,
                        Slot { key: k, value: T::spec_make(value) },
                    );
                }
                self.components.push(Slot { key: k, value: c });
                None
            },
        }
    }

    /// Builder form of [`Entity::add`]: consumes the entity and returns it
    /// with `value` stored under kind `T`'s key.
    pub fn with<T: Component<Enum = C>>(self, value: T::Type) -> (e: Entity<C>)
        requires
            self.wf(),
        ensures
            e.wf(),
            e.spec_id() == self.spec_id(),
            e@ == self@.insert(T::spec_key(), T::spec_make(value)),
    {
        let mut e = self;
        e.add::<T>(value);
        e
    }

    /// Detaches the payload stored for kind `T` and hands it to the caller,
    /// or `None` when the entity does not hold that kind.
    pub fn remove<T: Component<Enum = C>>(&mut self) -> (r: Option<T::Type>)
        requires
            old(self).wf(),
        ensures
            final(self).wf(),
            final(self).spec_id() == old(self).spec_id(),
            final(self)@ == old(self)@.remove(T::spec_key()),
            match r {
                Some(v) => old(self).spec_get::<T>() == Some(v),
                None => old(self).spec_get::<T>() is None,
            },
    {
        match self.find(T::key()) {
            Some(i) => {
                proof {
                    lemma_slots_map_index(self.components@, i as int);
                    lemma_slots_map_remove(self.components@, i as int);
                }
                let slot = self.components.remove(i);
                T::into_val(slot.value)
            },
            None => {
                proof {
                    lemma_slots_map_dom(self.components@, T::spec_key());
                }
                None
            },
        }
    }

    /// A mutable reference to the payload stored for kind `T`, or `None` when
    /// the entity does not hold that kind. Writing through the reference
    /// rewrites the entity's storage at `T`'s key alone.
    pub fn get_mut<T: Component<Enum = C>>(&mut self) -> (r: Option<&mut T::Type>)
        requires
            old(self).wf(),
        ensures
            r.is_some() ==> {
                &&& old(self).spec_get::<T>() == Some(*r.unwrap())
                &&& final(self)@ == old(self)@.insert(
                    T::spec_key(),
                    T::spec_make(*final(r.unwrap())),
                )
            },
            r.is_none() ==> old(self).spec_get::<T>() is None && final(self)@ == old(self)@,
            final(self).wf(),
            final(self).spec_id() == old(self).spec_id(),
    {
        broadcast use lemma_slots_map_update;

        match self.find(T::key()) {
            Some(i) => {
                proof {
                    lemma_slots_map_index(self.components@, i as int);
                }
                let slot = &mut self.components[i];
                T::try_val_mut(&mut slot.value)
            },
            None => {
                proof {
                    lemma_slots_map_dom(self.components@, T::spec_key());
                }
                None
            },
        }
    }

    /// Direct access to the payload stored for kind `T`. Asking for a kind
    /// the entity does not hold is a contract violation by the caller, so
    /// the kind's presence is required.
    pub fn index<T: Component<Enum = C>>(&self) -> (v: &T::Type)
        requires
            self.wf(),
            self.spec_has::<T>(),
        ensures
            Some(*v) == self.spec_get::<T>(),
    {
        match self.get::<T>() {
            Some(v) => v,
            None => unreached(),
        }
    }

    /// Direct mutable access to the payload stored for kind `T`. Asking for
    /// a kind the entity does not hold is a contract violation by the
    /// caller, so the kind's presence is required.
    pub fn index_mut<T: Component<Enum = C>>(&mut self) -> (v: &mut T::Type)
        requires
            old(self).wf(),
            old(self).spec_has::<T>(),
        ensures
            Some(*v) == old(self).spec_get::<T>(),
            final(self)@ == old(self)@.insert(T::spec_key(), T::spec_make(*final(v))),
            final(self).wf(),
            final(self).spec_id() == old(self).spec_id(),
    {
        match self.get_mut::<T>() {
            Some(v) => v,
            None => unreached(),
        }
    }

    /// Mutable references to the payloads of two distinct kinds on this
    /// entity, taken simultaneously from one exclusive borrow, or `None`
    /// when either kind is absent. The two kinds' keys differ, so the
    /// references point into disjoint storage; writing through them rewrites
    /// the entity at the two keys alone.
    pub fn get2_mut<T1: Component<Enum = C>, T2: Component<Enum = C>>(&mut self) -> (r: Option<
        (&mut T1::Type, &mut T2::Type),
    >)
        requires
            old(self).wf(),
            T1::spec_key() != T2::spec_key(),
        ensures
            r.is_some() ==> {
                &&& old(self).spec_get::<T1>() == Some(*r.unwrap().0)
                &&& old(self).spec_get::<T2>() == Some(*r.unwrap().1)
                &&& final(self)@ == old(self)@.insert(
                    T1::spec_key(),
                    T1::spec_make(*final(r.unwrap().0)),
                ).insert(T2::spec_key(), T2::spec_make(*final(r.unwrap().1)))
            },
            r.is_none() ==> {
                &&& !(old(self).spec_has::<T1>() && old(self).spec_has::<T2>())
                &&& final(self)@ == old(self)@
            },
            final(self).wf(),
            final(self).spec_id() == old(self).spec_id(),
    {
        broadcast use lemma_slots_map_update;

        if !(self.has::<T1>() && self.has::<T2>()) {
            return None;
        }
        let i1 = match self.find(T1::key()) {
            Some(i) => i,
            None => {
                proof {
                    lemma_slots_map_dom(self.components@, T1::spec_key());
                }
                unreached()
            },
        };
        let i2 = match self.find(T2::key()) {
            Some(i) => i,
            None => {
                proof {
                    lemma_slots_map_dom(self.components@, T2::spec_key());
                }
                unreached()
            },
        };
        proof {
            lemma_slots_map_index(self.components@, i1 as int);
            lemma_slots_map_index(self.components@, i2 as int);
            assert(i1 != i2);
        }
        if i1 < i2 {
            let (s1, s2) = two_muts(&mut self.components, i1, i2);
            let v1 = match T1::try_val_mut(&mut s1.value) {
                Some(v) => v,
                None => unreached(),
            };
            let v2 = match T2::try_val_mut(&mut s2.value) {
                Some(v) => v,
                None => unreached(),
            };
            Some((v1, v2))
        } else {
            let (s2, s1) = two_muts(&mut self.components, i2, i1);
            let v1 = match T1::try_val_mut(&mut s1.value) {
                Some(v) => v,
                None => unreached(),
            };
            let v2 = match T2::try_val_mut(&mut s2.value) {
                Some(v) => v,
                None => unreached(),
            };
            Some((v1, v2))
        }
    }

    /// Mutable references to the payloads of three pairwise distinct kinds
    /// on this entity, taken simultaneously from one exclusive borrow, or
    /// `None` when any kind is absent. Wider extractions compose the same
    /// way: one exclusive borrow, one partition of the storage by position.
    pub fn get3_mut<
        T1: Component<Enum = C>,
        T2: Component<Enum = C>,
        T3: Component<Enum = C>,
    >(&mut self) -> (r: Option<(&mut T1::Type, &mut T2::Type, &mut T3::Type)>)
        requires
            old(self).wf(),
            T1::spec_key() != T2::spec_key(),
            T1::spec_key() != T3::spec_key(),
            T2::spec_key() != T3::spec_key(),
        ensures
            r.is_some() ==> {
                &&& old(self).spec_get::<T1>() == Some(*r.unwrap().0)
                &&& old(self).spec_get::<T2>() == Some(*r.unwrap().1)
                &&& old(self).spec_get::<T3>() == Some(*r.unwrap().2)
                &&& final(self)@ == old(self)@.insert(
                    T1::spec_key(),
                    T1::spec_make(*final(r.unwrap().0)),
                ).insert(T2::spec_key(), T2::spec_make(*final(r.unwrap().1))).insert(
                    T3::spec_key(),
                    T3::spec_make(*final(r.unwrap().2)),
                )
            },
            r.is_none() ==> {
                &&& !(old(self).spec_has::<T1>() && old(self).spec_has::<T2>() && old(
                    self,
                ).spec_has::<T3>())
                &&& final(self)@ == old(self)@
            },
            final(self).wf(),
            final(self).spec_id() == old(self).spec_id(),
    {
        broadcast use lemma_slots_map_update;

        if !(self.has::<T1>() && self.has::<T2>() && self.has::<T3>()) {
            return None;
        }
        let i1 = match self.find(T1::key()) {
            Some(i) => i,
            None => {
                proof {
                    lemma_slots_map_dom(self.components@, T1::spec_key());
                }
                unreached()
            },
        };
        let i2 = match self.find(T2::key()) {
            Some(i) => i,
            None => {
                proof {
                    lemma_slots_map_dom(self.components@, T2::spec_key());
                }
                unreached()
            },
        };
        let i3 = match self.find(T3::key()) {
            Some(i) => i,
            None => {
                proof {
                    lemma_slots_map_dom(self.components@, T3::spec_key());
                }
                unreached()
            },
        };
        proof {
            lemma_slots_map_index(self.components@, i1 as int);
            lemma_slots_map_index(self.components@, i2 as int);
            lemma_slots_map_index(self.components@, i3 as int);
            assert(i1 != i2 && i1 != i3 && i2 != i3);
        }
        let (s1, s2, s3) = if i1 < i2 {
            if i2 < i3 {
                three_muts(&mut self.components, i1, i2, i3)
            } else if i1 < i3 {
                let (a, c, b) = three_muts(&mut self.components, i1, i3, i2);
                (a, b, c)
            } else {
                let (c, a, b) = three_muts(&mut self.components, i3, i1, i2);
                (a, b, c)
            }
        } else {
            if i1 < i3 {
                let (b, a, c) = three_muts(&mut self.components, i2, i1, i3);
                (a, b, c)
            } else if i2 < i3 {
                let (b, c, a) = three_muts(&mut self.components, i2, i3, i1);
                (a, b, c)
            } else {
                let (c, b, a) = three_muts(&mut self.components, i3, i2, i1);
                (a, b, c)
            }
        };
        let v1 = match T1::try_val_mut(&mut s1.value) {
            Some(v) => v,
            None => unreached(),
        };
        let v2 = match T2::try_val_mut(&mut s2.value) {
            Some(v) => v,
            None => unreached(),
        };
        let v3 = match T3::try_val_mut(&mut s3.value) {
            Some(v) => v,
            None => unreached(),
        };
        Some((v1, v2, v3))
    }
}

} // verus!
