//! Systems: the transformations that a stage runs.

use vstd::prelude::*;
use crate::component::ComponentTypeId;
use crate::query::{Query, QueryResult};
use crate::world::World;

verus! {

/// A stateless transformation of the world.
///
/// A system says which components it wants to see and is then handed the
/// matching groups. It sees the world read-only: what it wants changed it
/// writes to the groups, spawns through the result, or queues as a resource
/// write. `wanted` and `executed` say what the system asks for and what it
/// makes of the answer; `query` and `execute` compute it.
pub trait System: Send + Sync {
    /// The component types the system asks for. A system that does not say
    /// what they are leaves them open.
    open spec fn wanted(&self) -> Set<ComponentTypeId> {
        arbitrary()
    }

    /// Whether `after` is what the system makes of the answer `before` to
    /// its query in `world`. A system that does not say leaves it open.
    open spec fn executed(&self, before: QueryResult, world: World, after: QueryResult) -> bool {
        arbitrary()
    }

    fn query(&self) -> (query: Query)
        ensures
            query.types() == self.wanted(),
    ;

    fn execute(&self, query_result: &mut QueryResult, world: &World)
        requires
            world.wf(),
        ensures
            self.executed(*old(query_result), *world, *final(query_result)),
    ;
}

} // verus!
