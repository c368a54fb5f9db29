//! Delayed [`World`] mutation
//!
//! Commands are queued while the world is borrowed, and applied one after the other once the
//! whole world can be had.

use crate::world::comp::{dropped_from, BorrowError};
use crate::world::ent::{Entity, EntityPoolView, PoolOp};
use crate::world::{ComponentSet, World};
use std::any::TypeId;
use std::marker::PhantomData;
use vstd::prelude::*;

verus! {

/// Why a command changed nothing, or less than it was meant to
#[derive(Debug)]
pub enum CommandError {
    /// The entity of the command is not live.
    MissingEntity(Entity),
    /// No pool is registered for a type of components of the command.
    NotRegistered(TypeId),
    /// The pool for a type of components of the command is lent out.
    AlreadyBorrowed(TypeId),
    /// The pool that is registered for a type of components of the command is of another type.
    WrongType(TypeId),
    /// No entity could be made.
    OutOfEntities,
}

/// The error of a command for the error of the pools.
pub open spec fn spec_from_borrow_error(e: BorrowError) -> CommandError {
    match e {
        BorrowError::NotRegistered(ty) => CommandError::NotRegistered(ty),
        BorrowError::AlreadyBorrowed(ty) => CommandError::AlreadyBorrowed(ty),
        BorrowError::WrongType(ty) => CommandError::WrongType(ty),
    }
}

/// The result of a command for the result of the pools.
pub open spec fn command_result(r: Result<(), BorrowError>) -> Result<(), CommandError> {
    match r {
        Ok(()) => Ok(()),
        Err(e) => Err(spec_from_borrow_error(e)),
    }
}

/// The error of a command for the error of the pools.
pub fn from_borrow_error(e: BorrowError) -> (r: CommandError)
    ensures
        r == spec_from_borrow_error(e),
{
    match e {
        BorrowError::NotRegistered(ty) => CommandError::NotRegistered(ty),
        BorrowError::AlreadyBorrowed(ty) => CommandError::AlreadyBorrowed(ty),
        BorrowError::WrongType(ty) => CommandError::WrongType(ty),
    }
}

/// The pool of entities after what a command does to it.
pub open spec fn after_op(ents: EntityPoolView, op: Option<PoolOp>) -> EntityPoolView {
    match op {
        Some(op) => ents.step(op),
        None => ents,
    }
}

/// The pool of entities after what the commands do to it, the first command first.
pub open spec fn after_ops(ents: EntityPoolView, ops: Seq<Option<PoolOp>>) -> EntityPoolView
    decreases ops.len(),
{
    if ops.len() == 0 {
        ents
    } else {
        after_ops(after_op(ents, ops[0]), ops.drop_first())
    }
}

/// A [`World`] mutation.
pub trait Command: 'static {
    /// What the command does to the pool of entities, if anything.
    spec fn spec_op(&self) -> Option<PoolOp>;

    /// Whether `after` can be what the command leaves of the world `before`, and `r` its
    /// result.
    spec fn spec_written(&self, before: World, after: World, r: Result<(), CommandError>) -> bool;

    /// Changes the world as `spec_written` says. Of the pool of entities it changes what
    /// `spec_op` says; the same pools of components are registered afterwards and the same
    /// resources set.
    fn write(self: Box<Self>, world: &mut World) -> (r: Result<(), CommandError>)
        requires
            old(world).wf(),
        ensures
            final(world).wf(),
            final(world).ents@ == after_op(old(world).ents@, self.spec_op()),
            final(world).comp.registered() == old(world).comp.registered(),
            final(world).res == old(world).res,
            self.spec_written(*old(world), *final(world), r),
    ;
}

/// A command as the queue holds it
pub struct Queued {
    pub command: Box<dyn Command>,
}

/// A [`Command`] that can be boxed for the queue
pub trait IntoQueued: Command + Sized {
    /// Boxes the command for the queue: the boxed command does what the command does.
    fn queued(self) -> (r: Queued)
        ensures
            r.command.spec_op() == self.spec_op(),
            forall|before: World, after: World, res: Result<(), CommandError>|
                #![trigger r.command.spec_written(before, after, res)]
                r.command.spec_written(before, after, res) == self.spec_written(before, after, res),
    ;
}

impl Queued {
    /// Boxes a command for the queue.
    pub fn new<C: IntoQueued>(command: C) -> (r: Self)
        ensures
            r.command.spec_op() == command.spec_op(),
            forall|before: World, after: World, res: Result<(), CommandError>|
                #![trigger r.command.spec_written(before, after, res)]
                r.command.spec_written(before, after, res) == command.spec_written(
                    before,
                    after,
                    res,
                ),
    {
        command.queued()
    }
}

/// What each of the commands does to the pool of entities.
pub open spec fn ops_of(cmds: Seq<Queued>) -> Seq<Option<PoolOp>> {
    Seq::new(cmds.len(), |i: int| cmds[i].command.spec_op())
}

/// Whether the worlds are those that the commands lead through, written one after the other
/// with the results: each command leaves of the world before it the world after it.
pub open spec fn replayed(
    cmds: Seq<Queued>,
    worlds: Seq<World>,
    results: Seq<Result<(), CommandError>>,
) -> bool {
    &&& worlds.len() == cmds.len() + 1
    &&& results.len() == cmds.len()
    &&& forall|i: int|
        0 <= i < cmds.len() ==> (#[trigger] cmds[i]).command.spec_written(
            worlds[i],
            worlds[i + 1],
            results[i],
        )
}

/// Whether `after` is the world `before` after `k` reserved entities were spawned and the
/// commands written, one after the other, through `worlds` and with `results`, and `errors` what
/// was reported.
pub open spec fn applied(
    before: World,
    cmds: Seq<Queued>,
    k: nat,
    worlds: Seq<World>,
    results: Seq<Result<(), CommandError>>,
    after: World,
    errors: Seq<CommandError>,
) -> bool {
    &&& before.ents@.can_alloc_n(k)
    &&& replayed(cmds, worlds, results)
    &&& worlds[0].ents@ == before.ents@.allocated_n(k)
    &&& worlds[0].comp == before.comp
    &&& worlds[0].res == before.res
    &&& worlds.last() == after
    &&& errors == errors_of(results)
    &&& after.ents@ == after_ops(before.ents@.allocated_n(k), ops_of(cmds))
}

/// The errors among the results, in their order.
pub open spec fn errors_of(results: Seq<Result<(), CommandError>>) -> Seq<CommandError>
    decreases results.len(),
{
    if results.len() == 0 {
        Seq::empty()
    } else {
        match results.last() {
            Ok(()) => errors_of(results.drop_last()),
            Err(e) => errors_of(results.drop_last()).push(e),
        }
    }
}

/// A queue of [`Command`]s
pub struct CommandQueue {
    cmds: Vec<Queued>,
}

impl View for CommandQueue {
    type V = Seq<Queued>;

    /// The queued commands, in the order in which they were pushed.
    closed spec fn view(&self) -> Seq<Queued> {
        self.cmds@
    }
}

impl Default for CommandQueue {
    fn default() -> (r: Self)
        ensures
            r@ == Seq::<Queued>::empty(),
    {
        CommandQueue { cmds: Vec::new() }
    }
}

impl CommandQueue {
    /// The number of queued commands.
    pub fn len(&self) -> (r: usize)
        ensures
            r == self@.len(),
    {
        self.cmds.len()
    }

    /// Push a [`Command`] onto the queue, behind the commands that are queued.
    pub fn push<C: IntoQueued>(&mut self, command: C)
        ensures
            final(self)@.len() == old(self)@.len() + 1,
            final(self)@.drop_last() == old(self)@,
            final(self)@.last().command.spec_op() == command.spec_op(),
            forall|before: World, after: World, res: Result<(), CommandError>|
                #![trigger final(self)@.last().command.spec_written(before, after, res)]
                final(self)@.last().command.spec_written(before, after, res)
                    == command.spec_written(before, after, res),
            ops_of(final(self)@) == ops_of(old(self)@).push(command.spec_op()),
    {
        let queued = Queued::new(command);
        self.push_queued(queued);
        assert(self@.drop_last() =~= old(self)@);
        assert(ops_of(self@) =~= ops_of(old(self)@).push(command.spec_op()));
    }

    /// Push a boxed [`Command`] onto the queue, behind the commands that are queued.
    pub fn push_queued(&mut self, queued: Queued)
        ensures
            final(self)@ == old(self)@.push(queued),
    {
        self.cmds.push(queued);
    }

    /// Execute the queued [`Command`]s in the world, the first that was pushed first, after
    /// the entities that were reserved have been spawned. This clears the queue. Returns what
    /// the commands that could not do their work had to say, in their order.
    ///
    /// The world goes through as many worlds as there are commands: the first is the world
    /// with the reserved entities spawned, the last is the world that is left, and each command
    /// leaves of the world before it the world after it.
    pub fn apply(&mut self, world: &mut World) -> (r: Vec<CommandError>)
        requires
            old(world).wf(),
        ensures
            final(world).wf(),
            final(self)@.len() == 0,
            final(world).comp.registered() == old(world).comp.registered(),
            final(world).res == old(world).res,
            exists|k: nat, worlds: Seq<World>, results: Seq<Result<(), CommandError>>|
                applied(*old(world), old(self)@, k, worlds, results, *final(world), r@),
    {
        // flush the previously queued entities
        world.synchronize();
        let ghost synced = *world;
        let ghost cmds = self@;
        let ghost ops = ops_of(self@);

        // turn the queue round, so that the first command is the last to be popped
        let mut rest: Vec<Queued> = Vec::new();
        while self.cmds.len() > 0
            invariant
                rest@.len() + self.cmds@.len() == cmds.len(),
                forall|i: int| 0 <= i < self.cmds@.len() ==> #[trigger] self.cmds@[i] == cmds[i],
                forall|i: int| 0 <= i < rest@.len() ==> #[trigger] rest@[i] == cmds[cmds.len() - 1 - i],
            decreases self.cmds@.len(),
        {
            match self.cmds.pop() {
                Some(cmd) => {
                    rest.push(cmd);
                },
                None => {},
            }
        }

        let mut errors: Vec<CommandError> = Vec::new();
        let ghost mut worlds: Seq<World> = seq![synced];
        let ghost mut results: Seq<Result<(), CommandError>> = Seq::empty();
        proof {
            assert(ops.take(0) =~= Seq::<Option<PoolOp>>::empty());
        }
        while rest.len() > 0
            invariant
                world.wf(),
                cmds.len() == ops.len(),
                ops == ops_of(cmds),
                results.len() <= cmds.len(),
                rest@.len() == cmds.len() - results.len(),
                worlds.len() == results.len() + 1,
                worlds[0] == synced,
                worlds.last() == *world,
                forall|i: int| 0 <= i < rest@.len() ==> #[trigger] rest@[i] == cmds[cmds.len() - 1 - i],
                forall|i: int|
                    0 <= i < results.len() ==> (#[trigger] cmds[i]).command.spec_written(
                        worlds[i],
                        worlds[i + 1],
                        results[i],
                    ),
                errors@ == errors_of(results),
                world.ents@ == after_ops(synced.ents@, ops.take(results.len() as int)),
                world.comp.registered() == old(world).comp.registered(),
                world.res == old(world).res,
            decreases rest@.len(),
        {
            let ghost done = results.len() as int;
            match rest.pop() {
                Some(cmd) => {
                    proof {
                        assert(cmd == cmds[done]);
                        lemma_after_ops_push(synced.ents@, ops.take(done), ops[done]);
                        assert(ops.take(done + 1) =~= ops.take(done).push(ops[done]));
                    }
                    let ghost before = *world;
                    let r = cmd.command.write(world);
                    let ghost earlier = results;
                    proof {
                        worlds = worlds.push(*world);
                        results = results.push(r);
                        assert(results.drop_last() =~= earlier);
                        assert(results.last() == r);
                    }
                    match r {
                        Ok(()) => {
                            assert(errors_of(results) == errors_of(earlier));
                        },
                        Err(e) => {
                            errors.push(e);
                            assert(errors_of(results) == errors_of(earlier).push(e));
                        },
                    }
                },
                None => {},
            }
        }
        proof {
            assert(ops.take(results.len() as int) =~= ops);
            assert(replayed(cmds, worlds, results));
            let k = choose|k: nat|
                old(world).ents@.can_alloc_n(k) && synced.ents@ == old(world).ents@.allocated_n(k);
            assert(applied(*old(world), cmds, k, worlds, results, *world, errors@));
        }
        errors
    }
}

/// Commands that do nothing to the pool of entities, as those that insert and remove
/// components, leave it as it is, however many of them are applied.
pub proof fn lemma_quiet_commands(ents: EntityPoolView, ops: Seq<Option<PoolOp>>)
    requires
        forall|i: int| 0 <= i < ops.len() ==> ops[i] is None,
    ensures
        after_ops(ents, ops) == ents,
    decreases ops.len(),
{
    if ops.len() > 0 {
        lemma_quiet_commands(ents, ops.drop_first());
    }
}

/// Applying the commands and then one more is applying them all.
pub proof fn lemma_after_ops_push(ents: EntityPoolView, ops: Seq<Option<PoolOp>>, op: Option<PoolOp>)
    ensures
        after_ops(ents, ops.push(op)) == after_op(after_ops(ents, ops), op),
    decreases ops.len(),
{
    if ops.len() == 0 {
        assert(ops.push(op).drop_first() =~= ops);
        assert(after_ops(ents, ops.push(op)) == after_ops(after_op(ents, op), ops));
    } else {
        assert(ops.push(op).drop_first() =~= ops.drop_first().push(op));
        lemma_after_ops_push(after_op(ents, ops[0]), ops.drop_first(), op);
    }
}

/// Round trip of a deferred insert: where a queue of one insert is replayed, the command
/// leaves of the world what inserting the components directly can leave of it, with the same
/// result, and nothing else.
pub proof fn lemma_queued_insert<T: ComponentSet>(
    command: Insert<T>,
    cmds: Seq<Queued>,
    worlds: Seq<World>,
    results: Seq<Result<(), CommandError>>,
)
    requires
        cmds.len() == 1,
        forall|before: World, after: World, res: Result<(), CommandError>|
            #![trigger cmds[0].command.spec_written(before, after, res)]
            cmds[0].command.spec_written(before, after, res) == command.spec_written(
                before,
                after,
                res,
            ),
        replayed(cmds, worlds, results),
        worlds[0].ents@.contains(command.entity),
    ensures
        worlds[1].ents == worlds[0].ents,
        worlds[1].res == worlds[0].res,
        exists|direct: Result<(), BorrowError>|
            T::spec_inserted(
                worlds[0].comp,
                worlds[1].comp,
                command.entity,
                crate::world::error_of(direct),
            ) && results[0]
                == command_result(direct),
{
    assert(cmds[0].command.spec_written(worlds[0], worlds[1], results[0]));
}

/// Spawns an [`Entity`] with components onto the world
pub struct Spawn<T> {
    pub comp: T,
}

impl<T> Spawn<T> {
    pub fn new(components: T) -> (r: Self)
        ensures
            r.comp == components,
    {
        Spawn { comp: components }
    }
}

impl<T: ComponentSet + 'static> Command for Spawn<T> {
    open spec fn spec_op(&self) -> Option<PoolOp> {
        Some(PoolOp::Allocate)
    }

    open spec fn spec_written(&self, before: World, after: World, r: Result<(), CommandError>) -> bool {
        if before.ents@.can_alloc() {
            &&& after.ents@ == before.ents@.allocated()
            &&& after.res == before.res
            &&& exists|direct: Result<(), BorrowError>|
                T::spec_inserted(
                    before.comp,
                    after.comp,
                    before.ents@.next_entity(),
                    crate::world::error_of(direct),
                ) && r
                    == command_result(direct)
        } else {
            r == Err::<(), CommandError>(CommandError::OutOfEntities) && after == before
        }
    }

    /// Spawns an entity and inserts the components. Where no entity can be made, nothing is
    /// done.
    fn write(self: Box<Self>, world: &mut World) -> (r: Result<(), CommandError>) {
        if world.ents.can_allocate() {
            let (_, direct) = world.spawn(self.comp);
            let r = match direct {
                Ok(()) => Ok(()),
                Err(e) => Err(from_borrow_error(e)),
            };
            assert(r == command_result(direct));
            r
        } else {
            Err(CommandError::OutOfEntities)
        }
    }
}

impl<T: ComponentSet + 'static> IntoQueued for Spawn<T> {
    fn queued(self) -> (r: Queued) {
        Queued { command: Box::new(self) }
    }
}

/// Despawns an [`Entity`] from the world
pub struct Despawn {
    pub entity: Entity,
}

impl Command for Despawn {
    open spec fn spec_op(&self) -> Option<PoolOp> {
        Some(PoolOp::Deallocate(self.entity))
    }

    open spec fn spec_written(&self, before: World, after: World, r: Result<(), CommandError>) -> bool {
        &&& after.ents@ == before.ents@.deallocated(self.entity)
        &&& after.res == before.res
        &&& after.comp.registered() == before.comp.registered()
        &&& if before.ents@.contains(self.entity) {
            &&& r is Ok
            &&& forall|ty: TypeId|
                #![trigger after.comp.entities()[ty]]
                after.comp.entities()[ty] == before.comp.entities()[ty] || dropped_from(
                    before.comp.entities()[ty],
                    after.comp.entities()[ty],
                    self.entity,
                )
        } else {
            r == Err::<(), CommandError>(CommandError::MissingEntity(self.entity)) && after.comp
                == before.comp
        }
    }

    /// Despawns the entity. An entity that is not live is reported and nothing is done.
    fn write(self: Box<Self>, world: &mut World) -> (r: Result<(), CommandError>) {
        if world.despawn(self.entity) {
            Ok(())
        } else {
            Err(CommandError::MissingEntity(self.entity))
        }
    }
}

impl IntoQueued for Despawn {
    fn queued(self) -> (r: Queued) {
        Queued { command: Box::new(self) }
    }
}

/// Inserts [`ComponentSet`] to the world
pub struct Insert<T> {
    pub entity: Entity,
    pub comp: T,
}

impl<T: ComponentSet + 'static> Command for Insert<T> {
    open spec fn spec_op(&self) -> Option<PoolOp> {
        None
    }

    open spec fn spec_written(&self, before: World, after: World, r: Result<(), CommandError>) -> bool {
        if before.ents@.contains(self.entity) {
            &&& after.ents == before.ents
            &&& after.res == before.res
            &&& exists|direct: Result<(), BorrowError>|
                T::spec_inserted(before.comp, after.comp, self.entity, crate::world::error_of(direct)) && r
                    == command_result(direct)
        } else {
            r == Err::<(), CommandError>(CommandError::MissingEntity(self.entity)) && after
                == before
        }
    }

    /// Inserts the components. An entity that is not live is reported and nothing is done.
    fn write(self: Box<Self>, world: &mut World) -> (r: Result<(), CommandError>) {
        if world.contains(self.entity) {
            let direct = world.insert_set(self.entity, self.comp);
            let r = match direct {
                Ok(()) => Ok(()),
                Err(e) => Err(from_borrow_error(e)),
            };
            assert(r == command_result(direct));
            r
        } else {
            Err(CommandError::MissingEntity(self.entity))
        }
    }
}

impl<T: ComponentSet + 'static> IntoQueued for Insert<T> {
    fn queued(self) -> (r: Queued) {
        Queued { command: Box::new(self) }
    }
}

/// Removes [`ComponentSet`] of an entity from the world
pub struct Remove<T> {
    pub entity: Entity,
    pub _ty: PhantomData<T>,
}

impl<T: ComponentSet + 'static> Command for Remove<T> {
    open spec fn spec_op(&self) -> Option<PoolOp> {
        None
    }

    open spec fn spec_written(&self, before: World, after: World, r: Result<(), CommandError>) -> bool {
        if before.ents@.contains(self.entity) {
            &&& after.ents == before.ents
            &&& after.res == before.res
            &&& exists|direct: Result<(), BorrowError>|
                T::spec_removed(before.comp, after.comp, self.entity, crate::world::error_of(direct)) && r
                    == command_result(direct)
        } else {
            r is Ok && after == before
        }
    }

    /// Removes the components. For an entity that is not live nothing is done, without a
    /// word.
    fn write(self: Box<Self>, world: &mut World) -> (r: Result<(), CommandError>) {
        if world.contains(self.entity) {
            let direct = world.remove_set::<T>(self.entity);
            let r = match direct {
                Ok(()) => Ok(()),
                Err(e) => Err(from_borrow_error(e)),
            };
            assert(r == command_result(direct));
            r
        } else {
            Ok(())
        }
    }
}

impl<T: ComponentSet + 'static> IntoQueued for Remove<T> {
    fn queued(self) -> (r: Queued) {
        Queued { command: Box::new(self) }
    }
}

} // verus!
