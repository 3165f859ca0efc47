//! A small entity-component store.
//!
//! A [`World`] owns a collection of entities, each addressed by a stable,
//! monotonically minted [`Id`]. An [`Entity`] is a sparse bag of component
//! values, at most one per declared component kind. Component kinds are
//! declared by implementing the [`Component`] trait, which ties a tag type to
//! its payload type, to a case of a closed component union, and to a unique
//! storage key. The query layer filters a world's entities by the kinds they
//! hold and hands out references, immutable or mutable, to the stored values.

mod component;
mod entity;
pub mod example_component;
mod iter;
mod query;
mod world;

pub use component::Component;
pub use component::keys_valid;
pub use entity::Entity;
pub use entity::Id;
pub use iter::Mut;
pub use iter::Ref;
pub use query::DuplicateKind;
pub use query::map1;
pub use query::map1_in;
pub use query::map2;
pub use query::map2_in;
pub use query::map3;
pub use query::map_mut1;
pub use query::map_mut2;
pub use query::map_mut3;
pub use query::map_mut_checked2;
pub use query::map_mut_checked3;
pub use query::tags1;
pub use query::tags1_in;
pub use query::tags2;
pub use query::tags2_in;
pub use query::tags3;
pub use world::World;
