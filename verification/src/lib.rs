//! Toy entity-component store based on sparse sets
//!
//! Entities are slots with generations, handed out by a pool. Components of one type lie
//! packed in a pool of their own, found by entity through a sparse array. The world keeps the
//! pools by the identifier of their type, each behind a borrow that is checked at run time.
//! Queries walk one pool or join several. Systems declare what they access, so that it can be
//! told whether two of them conflict, and commands put off changes of the world until the
//! whole of it can be had.
//!
//! What the pools and the queries do is stated over their packed orders and proved. Of the
//! world, the pool of entities and the registered types are stated; what the cells hold is
//! known only to the pool that was borrowed from them.

pub mod cmd;
pub mod prelude;
pub mod query;
pub mod world;

pub use crate::world::World;
