//! The query layer: filtering a world's entities by the component kinds they
//! hold, and extracting references to the stored payloads.
//!
//! Each query form comes in one- and two-kind arities; wider queries compose
//! the same way. Splitting "does it match" ([`tags1`], [`tags2`]) from
//! "extract references" ([`map1`], [`map2`], [`map_mut2`]) lets callers
//! filter without paying for reference extraction. Absence of a requested
//! kind is never an error: the entity is skipped.

use vstd::prelude::*;

use crate::component::Component;
use crate::entity::Entity;
use crate::world::World;

verus! {

/// The has-all predicate over one kind.
pub open spec fn spec_matches1<C, T1: Component<Enum = C>>(e: Entity<C>) -> bool {
    e.spec_has::<T1>()
}

/// The has-all predicate over two kinds.
pub open spec fn spec_matches2<C, T1: Component<Enum = C>, T2: Component<Enum = C>>(
    e: Entity<C>,
) -> bool {
    e.spec_has::<T1>() && e.spec_has::<T2>()
}

/// The has-all predicate over three kinds.
pub open spec fn spec_matches3<
    C,
    T1: Component<Enum = C>,
    T2: Component<Enum = C>,
    T3: Component<Enum = C>,
>(e: Entity<C>) -> bool {
    e.spec_has::<T1>() && e.spec_has::<T2>() && e.spec_has::<T3>()
}

/// The has-all predicate over one kind, as a function value.
pub open spec fn matches1_pred<C, T1: Component<Enum = C>>() -> spec_fn(Entity<C>) -> bool {
    |e: Entity<C>| spec_matches1::<C, T1>(e)
}

/// The has-all predicate over two kinds, as a function value.
pub open spec fn matches2_pred<C, T1: Component<Enum = C>, T2: Component<Enum = C>>() -> spec_fn(
    Entity<C>,
) -> bool {
    |e: Entity<C>| spec_matches2::<C, T1, T2>(e)
}

/// What the one-kind immutable map reads off a matching entity.
pub open spec fn extract1<C, T1: Component<Enum = C>>() -> spec_fn(Entity<C>) -> T1::Type {
    |e: Entity<C>| e.spec_get::<T1>().unwrap()
}

/// What the two-kind immutable map reads off a matching entity.
pub open spec fn extract2<C, T1: Component<Enum = C>, T2: Component<Enum = C>>() -> spec_fn(
    Entity<C>,
) -> (T1::Type, T2::Type) {
    |e: Entity<C>| (e.spec_get::<T1>().unwrap(), e.spec_get::<T2>().unwrap())
}

/// What mapping one kind over an entity sequence yields: exactly the
/// entities satisfying the has-all predicate, in sequence order, each
/// replaced by its stored payload.
pub open spec fn spec_map1<C, T1: Component<Enum = C>>(s: Seq<Entity<C>>) -> Seq<T1::Type> {
    s.filter(matches1_pred::<C, T1>()).map_values(extract1::<C, T1>())
}

/// What mapping two kinds over an entity sequence yields: exactly the
/// entities satisfying the has-all predicate, in sequence order, each
/// replaced by the pair of its stored payloads.
pub open spec fn spec_map2<C, T1: Component<Enum = C>, T2: Component<Enum = C>>(
    s: Seq<Entity<C>>,
) -> Seq<(T1::Type, T2::Type)> {
    s.filter(matches2_pred::<C, T1, T2>()).map_values(extract2::<C, T1, T2>())
}

/// The tag filter over one kind: whether the entity holds it. Equal to
/// `entity.has::<T1>()`; exposed so callers can filter without paying for
/// reference extraction.
pub fn tags1<C, T1: Component<Enum = C>>(entity: &Entity<C>) -> (r: bool)
    requires
        entity.wf(),
    ensures
        r == spec_matches1::<C, T1>(*entity),
{
    entity.has::<T1>()
}

/// The tag filter over two kinds: whether the entity holds both.
pub fn tags2<C, T1: Component<Enum = C>, T2: Component<Enum = C>>(entity: &Entity<C>) -> (r: bool)
    requires
        entity.wf(),
    ensures
        r == spec_matches2::<C, T1, T2>(*entity),
{
    entity.has::<T1>() && entity.has::<T2>()
}

/// The tag filter over three kinds: whether the entity holds all three.
pub fn tags3<C, T1: Component<Enum = C>, T2: Component<Enum = C>, T3: Component<Enum = C>>(
    entity: &Entity<C>,
) -> (r: bool)
    requires
        entity.wf(),
    ensures
        r == spec_matches3::<C, T1, T2, T3>(*entity),
{
    entity.has::<T1>() && entity.has::<T2>() && entity.has::<T3>()
}

/// The one-kind immutable map over an entity: a reference to the stored
/// payload exactly when the has-all predicate holds.
pub fn map1<C, T1: Component<Enum = C>>(entity: &Entity<C>) -> (r: Option<&T1::Type>)
    requires
        entity.wf(),
    ensures
        match r {
            Some(v) => spec_matches1::<C, T1>(*entity) && Some(*v) == entity.spec_get::<T1>(),
            None => !spec_matches1::<C, T1>(*entity),
        },
{
    entity.get::<T1>()
}

/// The two-kind immutable map over an entity: references to both stored
/// payloads exactly when the has-all predicate holds.
pub fn map2<C, T1: Component<Enum = C>, T2: Component<Enum = C>>(entity: &Entity<C>) -> (r: Option<
    (&T1::Type, &T2::Type),
>)
    requires
        entity.wf(),
    ensures
        match r {
            Some(p) => spec_matches2::<C, T1, T2>(*entity) && Some(*p.0) == entity.spec_get::<T1>()
                && Some(*p.1) == entity.spec_get::<T2>(),
            None => !spec_matches2::<C, T1, T2>(*entity),
        },
{
    match (entity.get::<T1>(), entity.get::<T2>()) {
        (Some(a), Some(b)) => Some((a, b)),
        _ => None,
    }
}

/// The three-kind immutable map over an entity: references to all three
/// stored payloads exactly when the has-all predicate holds.
pub fn map3<C, T1: Component<Enum = C>, T2: Component<Enum = C>, T3: Component<Enum = C>>(
    entity: &Entity<C>,
) -> (r: Option<(&T1::Type, &T2::Type, &T3::Type)>)
    requires
        entity.wf(),
    ensures
        match r {
            Some(p) => {
                &&& spec_matches3::<C, T1, T2, T3>(*entity)
                &&& Some(*p.0) == entity.spec_get::<T1>()
                &&& Some(*p.1) == entity.spec_get::<T2>()
                &&& Some(*p.2) == entity.spec_get::<T3>()
            },
            None => !spec_matches3::<C, T1, T2, T3>(*entity),
        },
{
    match (entity.get::<T1>(), entity.get::<T2>(), entity.get::<T3>()) {
        (Some(a), Some(b), Some(c)) => Some((a, b, c)),
        _ => None,
    }
}

/// The one-kind mutable map over an entity: a mutable reference to the
/// stored payload exactly when the entity holds the kind.
pub fn map_mut1<C, T1: Component<Enum = C>>(entity: &mut Entity<C>) -> (r: Option<&mut T1::Type>)
    requires
        old(entity).wf(),
    ensures
        r.is_some() ==> {
            &&& old(entity).spec_get::<T1>() == Some(*r.unwrap())
            &&& final(entity)@ == old(entity)@.insert(
                T1::spec_key(),
                T1::spec_make(*final(r.unwrap())),
            )
        },
        r.is_none() ==> old(entity).spec_get::<T1>() is None && final(entity)@ == old(entity)@,
        final(entity).wf(),
        final(entity).spec_id() == old(entity).spec_id(),
{
    entity.get_mut::<T1>()
}

/// The two-kind mutable map over an entity, fast variant: simultaneous
/// mutable references to both stored payloads exactly when the has-all
/// predicate holds. The caller's obligation that the two kinds differ — so
/// that the references never alias — is discharged statically by the
/// `requires` clause; [`map_mut_checked2`] checks it at run time instead.
pub fn map_mut2<C, T1: Component<Enum = C>, T2: Component<Enum = C>>(
    entity: &mut Entity<C>,
) -> (r: Option<(&mut T1::Type, &mut T2::Type)>)
    requires
        old(entity).wf(),
        T1::spec_key() != T2::spec_key(),
    ensures
        r.is_some() ==> {
            &&& old(entity).spec_get::<T1>() == Some(*r.unwrap().0)
            &&& old(entity).spec_get::<T2>() == Some(*r.unwrap().1)
            &&& final(entity)@ == old(entity)@.insert(
                T1::spec_key(),
                T1::spec_make(*final(r.unwrap().0)),
            ).insert(T2::spec_key(), T2::spec_make(*final(r.unwrap().1)))
        },
        r.is_none() ==> {
            &&& !spec_matches2::<C, T1, T2>(*old(entity))
            &&& final(entity)@ == old(entity)@
        },
        final(entity).wf(),
        final(entity).spec_id() == old(entity).spec_id(),
{
    entity.get2_mut::<T1, T2>()
}

/// The three-kind mutable map over an entity, fast variant: simultaneous
/// mutable references to all three stored payloads exactly when the has-all
/// predicate holds; the pairwise distinctness of the kinds is discharged
/// statically by the `requires` clause. Wider arities compose the same way.
pub fn map_mut3<C, T1: Component<Enum = C>, T2: Component<Enum = C>, T3: Component<Enum = C>>(
    entity: &mut Entity<C>,
) -> (r: Option<(&mut T1::Type, &mut T2::Type, &mut T3::Type)>)
    requires
        old(entity).wf(),
        T1::spec_key() != T2::spec_key(),
        T1::spec_key() != T3::spec_key(),
        T2::spec_key() != T3::spec_key(),
    ensures
        r.is_some() ==> {
            &&& old(entity).spec_get::<T1>() == Some(*r.unwrap().0)
            &&& old(entity).spec_get::<T2>() == Some(*r.unwrap().1)
            &&& old(entity).spec_get::<T3>() == Some(*r.unwrap().2)
            &&& final(entity)@ == old(entity)@.insert(
                T1::spec_key(),
                T1::spec_make(*final(r.unwrap().0)),
            ).insert(T2::spec_key(), T2::spec_make(*final(r.unwrap().1))).insert(
                T3::spec_key(),
                T3::spec_make(*final(r.unwrap().2)),
            )
        },
        r.is_none() ==> {
            &&& !spec_matches3::<C, T1, T2, T3>(*old(entity))
            &&& final(entity)@ == old(entity)@
        },
        final(entity).wf(),
        final(entity).spec_id() == old(entity).spec_id(),
{
    entity.get3_mut::<T1, T2, T3>()
}

/// The tag filter over one kind composed with world iteration: references
/// to exactly the entities holding the kind, in identity-ascending order.
pub fn tags1_in<C, T1: Component<Enum = C>>(world: &World<C>) -> (r: Vec<&Entity<C>>)
    requires
        world.wf(),
    ensures
        r@.len() == world@.filter(matches1_pred::<C, T1>()).len(),
        forall|j: int| 0 <= j < r@.len() ==> *r@[j] == world@.filter(matches1_pred::<C, T1>())[j],
{
    proof {
        world.lemma_wf_entities();
        reveal(Seq::filter);
    }
    let mut r: Vec<&Entity<C>> = Vec::new();
    let n = world.len();
    let mut i: usize = 0;
    while i < n
        invariant
            world.wf(),
            n == world@.len(),
            i <= n,
            forall|k: int| 0 <= k < world@.len() ==> (#[trigger] world@[k]).wf(),
            r@.len() == world@.subrange(0, i as int).filter(matches1_pred::<C, T1>()).len(),
            forall|j: int|
                0 <= j < r@.len() ==> *r@[j] == world@.subrange(0, i as int).filter(
                    matches1_pred::<C, T1>(),
                )[j],
        decreases n - i,
    {
        let ghost pre = world@.subrange(0, i as int);
        let ghost cur = world@.subrange(0, i as int + 1);
        let e = world.at(i);
        if tags1::<C, T1>(e) {
            r.push(e);
        }
        proof {
            reveal(Seq::filter);
            assert(cur.drop_last() =~= pre);
            assert(cur.last() == world@[i as int]);
        }
        i += 1;
    }
    proof {
        reveal(Seq::filter);
        assert(world@.subrange(0, n as int) =~= world@);
    }
    r
}

/// The tag filter over two kinds composed with world iteration: references
/// to exactly the entities holding both kinds, in identity-ascending order.
pub fn tags2_in<C, T1: Component<Enum = C>, T2: Component<Enum = C>>(world: &World<C>) -> (r: Vec<
    &Entity<C>,
>)
    requires
        world.wf(),
    ensures
        r@.len() == world@.filter(matches2_pred::<C, T1, T2>()).len(),
        forall|j: int|
            0 <= j < r@.len() ==> *r@[j] == world@.filter(matches2_pred::<C, T1, T2>())[j],
{
    proof {
        world.lemma_wf_entities();
        reveal(Seq::filter);
    }
    let mut r: Vec<&Entity<C>> = Vec::new();
    let n = world.len();
    let mut i: usize = 0;
    while i < n
        invariant
            world.wf(),
            n == world@.len(),
            i <= n,
            forall|k: int| 0 <= k < world@.len() ==> (#[trigger] world@[k]).wf(),
            r@.len() == world@.subrange(0, i as int).filter(matches2_pred::<C, T1, T2>()).len(),
            forall|j: int|
                0 <= j < r@.len() ==> *r@[j] == world@.subrange(0, i as int).filter(
                    matches2_pred::<C, T1, T2>(),
                )[j],
        decreases n - i,
    {
        let ghost pre = world@.subrange(0, i as int);
        let ghost cur = world@.subrange(0, i as int + 1);
        let e = world.at(i);
        if tags2::<C, T1, T2>(e) {
            r.push(e);
        }
        proof {
            reveal(Seq::filter);
            assert(cur.drop_last() =~= pre);
            assert(cur.last() == world@[i as int]);
        }
        i += 1;
    }
    proof {
        reveal(Seq::filter);
        assert(world@.subrange(0, n as int) =~= world@);
    }
    r
}

/// The one-kind immutable map composed with world iteration: for exactly
/// the entities holding the kind, in identity-ascending order, a reference
/// to the stored payload.
pub fn map1_in<C, T1: Component<Enum = C>>(world: &World<C>) -> (r: Vec<&T1::Type>)
    requires
        world.wf(),
    ensures
        r@.len() == spec_map1::<C, T1>(world@).len(),
        forall|j: int| 0 <= j < r@.len() ==> *r@[j] == spec_map1::<C, T1>(world@)[j],
{
    proof {
        world.lemma_wf_entities();
        reveal(Seq::filter);
    }
    let mut r: Vec<&T1::Type> = Vec::new();
    let n = world.len();
    let mut i: usize = 0;
    while i < n
        invariant
            world.wf(),
            n == world@.len(),
            i <= n,
            forall|k: int| 0 <= k < world@.len() ==> (#[trigger] world@[k]).wf(),
            r@.len() == spec_map1::<C, T1>(world@.subrange(0, i as int)).len(),
            forall|j: int|
                0 <= j < r@.len() ==> *r@[j] == spec_map1::<C, T1>(world@.subrange(0, i as int))[j],
        decreases n - i,
    {
        let ghost pre = world@.subrange(0, i as int);
        let ghost cur = world@.subrange(0, i as int + 1);
        let e = world.at(i);
        match map1::<C, T1>(e) {
            Some(v) => r.push(v),
            None => (),
        }
        proof {
            reveal(Seq::filter);
            assert(cur.drop_last() =~= pre);
            assert(cur.last() == world@[i as int]);
            if spec_matches1::<C, T1>(world@[i as int]) {
                assert(spec_map1::<C, T1>(cur) =~= spec_map1::<C, T1>(pre).push(
                    extract1::<C, T1>()(world@[i as int]),
                ));
            } else {
                assert(spec_map1::<C, T1>(cur) =~= spec_map1::<C, T1>(pre));
            }
        }
        i += 1;
    }
    proof {
        reveal(Seq::filter);
        assert(world@.subrange(0, n as int) =~= world@);
    }
    r
}

/// The two-kind immutable map composed with world iteration: for exactly
/// the entities holding both kinds, in identity-ascending order, the pair
/// of references to the stored payloads.
pub fn map2_in<C, T1: Component<Enum = C>, T2: Component<Enum = C>>(world: &World<C>) -> (r: Vec<
    (&T1::Type, &T2::Type),
>)
    requires
        world.wf(),
    ensures
        r@.len() == spec_map2::<C, T1, T2>(world@).len(),
        forall|j: int|
            0 <= j < r@.len() ==> (*r@[j].0, *r@[j].1) == spec_map2::<C, T1, T2>(world@)[j],
{
    proof {
        world.lemma_wf_entities();
        reveal(Seq::filter);
    }
    let mut r: Vec<(&T1::Type, &T2::Type)> = Vec::new();
    let n = world.len();
    let mut i: usize = 0;
    while i < n
        invariant
            world.wf(),
            n == world@.len(),
            i <= n,
            forall|k: int| 0 <= k < world@.len() ==> (#[trigger] world@[k]).wf(),
            r@.len() == spec_map2::<C, T1, T2>(world@.subrange(0, i as int)).len(),
            forall|j: int|
                0 <= j < r@.len() ==> (*r@[j].0, *r@[j].1) == spec_map2::<C, T1, T2>(
                    world@.subrange(0, i as int),
                )[j],
        decreases n - i,
    {
        let ghost pre = world@.subrange(0, i as int);
        let ghost cur = world@.subrange(0, i as int + 1);
        let e = world.at(i);
        match map2::<C, T1, T2>(e) {
            Some(p) => r.push(p),
            None => (),
        }
        proof {
            reveal(Seq::filter);
            assert(cur.drop_last() =~= pre);
            assert(cur.last() == world@[i as int]);
            if spec_matches2::<C, T1, T2>(world@[i as int]) {
                assert(spec_map2::<C, T1, T2>(cur) =~= spec_map2::<C, T1, T2>(pre).push(
                    extract2::<C, T1, T2>()(world@[i as int]),
                ));
            } else {
                assert(spec_map2::<C, T1, T2>(cur) =~= spec_map2::<C, T1, T2>(pre));
            }
        }
        i += 1;
    }
    proof {
        reveal(Seq::filter);
        assert(world@.subrange(0, n as int) =~= world@);
    }
    r
}

/// The error the checked mutable map reports when one kind is requested
/// twice: the offending kind's storage key and name.
pub struct DuplicateKind {
    /// The storage key requested more than once.
    pub key: u64,
    /// The name of the kind requested more than once.
    pub name: &'static str,
}

/// The two-kind mutable map over an entity, checked variant: same yield as
/// [`map_mut2`], but first verifies at run time that the two requested kinds
/// differ, and fails — naming the repeated kind, before any reference is
/// produced — when they do not.
pub fn map_mut_checked2<C, T1: Component<Enum = C>, T2: Component<Enum = C>>(
    entity: &mut Entity<C>,
) -> (r: Result<Option<(&mut T1::Type, &mut T2::Type)>, DuplicateKind>)
    requires
        old(entity).wf(),
    ensures
        match r {
            Ok(inner) => {
                &&& T1::spec_key() != T2::spec_key()
                &&& inner.is_some() ==> {
                    &&& old(entity).spec_get::<T1>() == Some(*inner.unwrap().0)
                    &&& old(entity).spec_get::<T2>() == Some(*inner.unwrap().1)
                    &&& final(entity)@ == old(entity)@.insert(
                        T1::spec_key(),
                        T1::spec_make(*final(inner.unwrap().0)),
                    ).insert(T2::spec_key(), T2::spec_make(*final(inner.unwrap().1)))
                }
                &&& inner.is_none() ==> !spec_matches2::<C, T1, T2>(*old(entity))
                    && final(entity)@ == old(entity)@
            },
            Err(dup) => {
                &&& T1::spec_key() == T2::spec_key()
                &&& dup.key == T2::spec_key()
                &&& dup.name@ == T2::spec_name()
                &&& final(entity)@ == old(entity)@
            },
        },
        final(entity).wf(),
        final(entity).spec_id() == old(entity).spec_id(),
{
    if T1::key() == T2::key() {
        Err(DuplicateKind { key: T2::key(), name: T2::name() })
    } else {
        Ok(entity.get2_mut::<T1, T2>())
    }
}

/// The three-kind mutable map over an entity, checked variant: same yield as
/// [`map_mut3`], but first verifies at run time that no kind is requested
/// twice, and fails — naming a repeated kind, before any reference is
/// produced — when one is.
pub fn map_mut_checked3<
    C,
    T1: Component<Enum = C>,
    T2: Component<Enum = C>,
    T3: Component<Enum = C>,
>(entity: &mut Entity<C>) -> (r: Result<
    Option<(&mut T1::Type, &mut T2::Type, &mut T3::Type)>,
    DuplicateKind,
>)
    requires
        old(entity).wf(),
    ensures
        match r {
            Ok(inner) => {
                &&& T1::spec_key() != T2::spec_key()
                &&& T1::spec_key() != T3::spec_key()
                &&& T2::spec_key() != T3::spec_key()
                &&& inner.is_some() ==> {
                    &&& old(entity).spec_get::<T1>() == Some(*inner.unwrap().0)
                    &&& old(entity).spec_get::<T2>() == Some(*inner.unwrap().1)
                    &&& old(entity).spec_get::<T3>() == Some(*inner.unwrap().2)
                    &&& final(entity)@ == old(entity)@.insert(
                        T1::spec_key(),
                        T1::spec_make(*final(inner.unwrap().0)),
                    ).insert(T2::spec_key(), T2::spec_make(*final(inner.unwrap().1))).insert(
                        T3::spec_key(),
                        T3::spec_make(*final(inner.unwrap().2)),
                    )
                }
                &&& inner.is_none() ==> !spec_matches3::<C, T1, T2, T3>(*old(entity))
                    && final(entity)@ == old(entity)@
            },
            Err(dup) => {
                &&& (T1::spec_key() == T2::spec_key() || T1::spec_key() == T3::spec_key()
                    || T2::spec_key() == T3::spec_key())
                &&& (T1::spec_key() == T2::spec_key() ==> dup.key == T2::spec_key() && dup.name@
                    == T2::spec_name())
                &&& (T1::spec_key() != T2::spec_key() ==> dup.key == T3::spec_key() && dup.name@
                    == T3::spec_name())
                &&& final(entity)@ == old(entity)@
            },
        },
        final(entity).wf(),
        final(entity).spec_id() == old(entity).spec_id(),
{
    if T1::key() == T2::key() {
        Err(DuplicateKind { key: T2::key(), name: T2::name() })
    } else if T1::key() == T3::key() || T2::key() == T3::key() {
        Err(DuplicateKind { key: T3::key(), name: T3::name() })
    } else {
        Ok(entity.get3_mut::<T1, T2, T3>())
    }
}

} // verus!
