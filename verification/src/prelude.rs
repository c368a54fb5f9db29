//! What most programs need

pub use crate::cmd::{Command, CommandQueue};
pub use crate::query::Iter;
pub use crate::world::comp::{Comp, CompMut, Component, ComponentPool, ComponentPoolMap};
pub use crate::world::ent::Entity;
pub use crate::world::fetch::{AccessSet, AutoFetch};
pub use crate::world::res::{Res, ResMut, Resource};
pub use crate::world::{ComponentSet, ResourceSet, World};
