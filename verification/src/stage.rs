//! Stages: bags of systems that run against the same snapshot of the world.

use vstd::prelude::*;
use crate::component::ComponentTypeId;
use crate::query::{Query, QueryResult};
use crate::system::System;
use crate::world::World;

verus! {

/// A system of any type, held as the system it is.
pub struct HeldSystem<S: System> {
    pub inner: S,
}

impl<S: System> System for HeldSystem<S> {
    open spec fn wanted(&self) -> Set<ComponentTypeId> {
        self.inner.wanted()
    }

    open spec fn executed(&self, before: QueryResult, world: World, after: QueryResult) -> bool {
        self.inner.executed(before, world, after)
    }

    fn query(&self) -> (query: Query) {
        self.inner.query()
    }

    fn execute(&self, query_result: &mut QueryResult, world: &World) {
        self.inner.execute(query_result, world);
    }
}

/// A system as a stage holds it.
pub struct StagedSystem {
    pub system: Box<dyn System>,
}

impl StagedSystem {
    /// The component types the system asks for.
    pub open spec fn wanted(&self) -> Set<ComponentTypeId> {
        self.system.wanted()
    }

    /// Whether `after` is what the system makes of the answer `before` to
    /// its query in `world`.
    pub open spec fn executed(&self, before: QueryResult, world: World, after: QueryResult) -> bool {
        self.system.executed(before, world, after)
    }

    /// The staged form of a system: it asks for what the system asks for
    /// and works as the system works.
    pub fn new<S: System + 'static>(system: S) -> (staged: Self)
        ensures
            staged.wanted() == system.wanted(),
            forall|before: QueryResult, world: World, after: QueryResult|
                #[trigger] staged.executed(before, world, after) == system.executed(
                    before,
                    world,
                    after,
                ),
    {
        StagedSystem { system: Box::new(HeldSystem { inner: system }) }
    }

    /// What the system wants to see.
    pub(crate) fn query(&self) -> (query: Query)
        ensures
            query.types() == self.wanted(),
    {
        self.system.query()
    }

    /// Lets the system work on the result of its query.
    pub(crate) fn execute(&self, query_result: &mut QueryResult, world: &World)
        requires
            world.wf(),
        ensures
            self.executed(*old(query_result), *world, *final(query_result)),
    {
        self.system.execute(query_result, world);
    }
}

/// An unordered bag of systems. The systems of a stage run in parallel and
/// all see the world as it was before the stage.
pub struct Stage {
    systems: Vec<StagedSystem>,
}

impl Stage {
    /// The systems of the stage, in the order in which they were added.
    pub closed spec fn systems(&self) -> Seq<StagedSystem> {
        self.systems@
    }

    /// The number of systems in the stage.
    pub open spec fn count(&self) -> nat {
        self.systems().len()
    }

    /// The systems of the stage.
    pub fn iter(&self) -> (systems: &Vec<StagedSystem>)
        ensures
            systems@ == self.systems(),
    {
        &self.systems
    }

    /// The number of systems in the stage.
    pub fn len(&self) -> (len: usize)
        ensures
            len == self.count(),
    {
        self.systems.len()
    }
}

pub struct StageBuilder {
    systems: Vec<StagedSystem>,
}

impl StageBuilder {
    /// The systems added so far, in the order in which they were added.
    pub closed spec fn systems(&self) -> Seq<StagedSystem> {
        self.systems@
    }

    /// The number of systems added so far.
    pub open spec fn count(&self) -> nat {
        self.systems().len()
    }

    pub fn new() -> (builder: Self)
        ensures
            builder.systems() == Seq::<StagedSystem>::empty(),
    {
        StageBuilder { systems: Vec::new() }
    }

    /// Adds a system behind those already there.
    pub fn with_system<S: System + 'static>(self, system: S) -> (builder: Self)
        ensures
            builder.count() == self.count() + 1,
            builder.systems().drop_last() == self.systems(),
            builder.systems().last().wanted() == system.wanted(),
            forall|before: QueryResult, world: World, after: QueryResult|
                #[trigger] builder.systems().last().executed(before, world, after)
                    == system.executed(before, world, after),
    {
        let mut builder = self;
        let staged = StagedSystem::new(system);
        builder.systems.push(staged);
        assert(builder.systems().last() == staged);
        assert(builder.systems().drop_last() =~= self.systems());
        builder
    }

    /// Adds a staged system behind those already there.
    pub fn with_staged(self, staged: StagedSystem) -> (builder: Self)
        ensures
            builder.systems() == self.systems().push(staged),
    {
        let mut builder = self;
        builder.systems.push(staged);
        builder
    }

    pub fn build(self) -> (stage: Stage)
        ensures
            stage.systems() == self.systems(),
    {
        Stage { systems: self.systems }
    }
}

impl Default for StageBuilder {
    fn default() -> (builder: Self)
        ensures
            builder.systems() == Seq::<StagedSystem>::empty(),
    {
        Self::new()
    }
}

} // verus!
