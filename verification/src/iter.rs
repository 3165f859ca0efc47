//! Index wrappers that mark, kind by kind, whether a query wants shared or
//! mutable access.

use vstd::prelude::*;

use crate::component::Component;
use crate::entity::Entity;

verus! {

/// An index wrapper that designates an immutable reference to a kind's
/// payload.
#[derive(Debug, Clone, Copy, PartialEq, Eq, PartialOrd, Ord, Hash, Default)]
pub struct Ref<T>(pub T);

/// An index wrapper that designates a mutable reference to a kind's payload.
#[derive(Debug, Clone, Copy, PartialEq, Eq, PartialOrd, Ord, Hash, Default)]
pub struct Mut<T>(pub T);

impl<T> Ref<T> {
    /// A reference to the payload this tag's kind stores on `entity`, if the
    /// entity holds the kind.
    pub fn try_entity<'a, C>(self, entity: &'a Entity<C>) -> (r: Option<&'a T::Type>) where
        T: Component<Enum = C>,

        requires
            entity.wf(),
        ensures
            match r {
                Some(v) => entity.spec_get::<T>() == Some(*v),
                None => entity.spec_get::<T>() is None,
            },
    {
        entity.get::<T>()
    }
}

impl<T> Mut<T> {
    /// A reference to the payload this tag's kind stores on `entity`, if the
    /// entity holds the kind.
    pub fn try_entity<'a, C>(self, entity: &'a Entity<C>) -> (r: Option<&'a T::Type>) where
        T: Component<Enum = C>,

        requires
            entity.wf(),
        ensures
            match r {
                Some(v) => entity.spec_get::<T>() == Some(*v),
                None => entity.spec_get::<T>() is None,
            },
    {
        entity.get::<T>()
    }

    /// A mutable reference to the payload this tag's kind stores on
    /// `entity`, if the entity holds the kind.
    pub fn try_entity_mut<'a, C>(self, entity: &'a mut Entity<C>) -> (r: Option<
        &'a mut T::Type,
    >) where T: Component<Enum = C>
        requires
            old(entity).wf(),
        ensures
            r.is_some() ==> {
                &&& old(entity).spec_get::<T>() == Some(*r.unwrap())
                &&& final(entity)@ == old(entity)@.insert(
                    T::spec_key(),
                    T::spec_make(*final(r.unwrap())),
                )
            },
            r.is_none() ==> old(entity).spec_get::<T>() is None && final(entity)@ == old(entity)@,
            final(entity).wf(),
            final(entity).spec_id() == old(entity).spec_id(),
    {
        entity.get_mut::<T>()
    }
}

} // verus!
