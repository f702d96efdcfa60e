//! Hooks: reactive rules that turn a change into further changes and
//! resource writes.

use vstd::prelude::*;
use crate::base_components::{
    changed_children_hook, children_reaction, parent_reaction, removed_parent_hook, Children,
    Parent, Position,
};
use crate::component::{
    type_id, type_id_of, ComponentInstanceId, ComponentType, ComponentTypeId, ComponentView,
    UntypedComponent,
};
use crate::entity_id::EntityId;
use crate::position_map::{position_hook, position_requests};
use crate::query::{change_views, Change, ChangeView};
use crate::resource::RequestView;
use crate::resource_writer::ResourceWriter;
use crate::store::Store;

verus! {

/// A reactive rule.
///
/// A hook is a pure function of a change and the components of the store as
/// they are when the change arrives. It does not touch the store: what it
/// wants changed it returns as further changes, and what it wants written to
/// a resource it queues. `reaction` and `requests` say what the hook answers;
/// `execute` computes it.
pub trait Hook: Send + Sync {
    /// The changes the hook emits for `change`. A hook that does not say
    /// what they are leaves them open.
    open spec fn reaction(
        &self,
        change: ChangeView,
        components: Map<ComponentInstanceId, ComponentView>,
    ) -> Seq<ChangeView> {
        arbitrary()
    }

    /// The resource writes the hook queues for `change`. A hook that does
    /// not say what they are leaves them open.
    open spec fn requests(
        &self,
        change: ChangeView,
        components: Map<ComponentInstanceId, ComponentView>,
    ) -> Seq<RequestView> {
        arbitrary()
    }

    fn execute(&self, change: &Change, store: &Store, writer: &mut ResourceWriter) -> (changes: Vec<
        Change,
    >)
        requires
            store.wf(),
        ensures
            change_views(changes@) == self.reaction(change@, store@),
            final(writer)@ == old(writer)@ + self.requests(change@, store@),
    ;
}

/// A hook of any type, held as the hook it is.
pub struct HeldHook<H: Hook> {
    pub inner: H,
}

impl<H: Hook> Hook for HeldHook<H> {
    open spec fn reaction(
        &self,
        change: ChangeView,
        components: Map<ComponentInstanceId, ComponentView>,
    ) -> Seq<ChangeView> {
        self.inner.reaction(change, components)
    }

    open spec fn requests(
        &self,
        change: ChangeView,
        components: Map<ComponentInstanceId, ComponentView>,
    ) -> Seq<RequestView> {
        self.inner.requests(change, components)
    }

    fn execute(&self, change: &Change, store: &Store, writer: &mut ResourceWriter) -> (changes: Vec<
        Change,
    >) {
        self.inner.execute(change, store, writer)
    }
}

/// The rule of a registered hook: one of the rules that come with the
/// runtime, of which it is known what they emit, or a hook of the program's
/// own.
pub enum Rule {
    /// The rule that keeps the spatial index up to date.
    Position,
    /// The rule that links children to their parent.
    Children,
    /// The rule that takes a child off its parent's list.
    Parent,
    /// A hook of the program's own.
    Custom(Box<dyn Hook>),
}

impl Rule {
    /// The changes the rule emits for `change`.
    pub open spec fn reaction(
        self,
        change: ChangeView,
        components: Map<ComponentInstanceId, ComponentView>,
    ) -> Seq<ChangeView> {
        match self {
            Rule::Position => Seq::empty(),
            Rule::Children => children_reaction(change, components),
            Rule::Parent => parent_reaction(change, components),
            Rule::Custom(hook) => hook.reaction(change, components),
        }
    }

    /// The resource writes the rule queues for `change`.
    pub open spec fn requests(
        self,
        change: ChangeView,
        components: Map<ComponentInstanceId, ComponentView>,
    ) -> Seq<RequestView> {
        match self {
            Rule::Position => position_requests(change, components),
            Rule::Children => Seq::empty(),
            Rule::Parent => Seq::empty(),
            Rule::Custom(hook) => hook.requests(change, components),
        }
    }
}

/// A registered hook: the rule, and the component type it is restricted to,
/// if any. A typed hook runs only on changes of components of its type; an
/// untyped hook runs on every change.
pub struct ChangeHook {
    rule: Rule,
    component_type: Option<ComponentTypeId>,
}

impl ChangeHook {
    /// The component type the hook is restricted to.
    pub closed spec fn component_type(&self) -> Option<ComponentTypeId> {
        self.component_type
    }

    /// Whether the hook runs on `change`.
    pub open spec fn applies_to(&self, change: ChangeView) -> bool {
        match self.component_type() {
            Some(type_id) => change.component.id.1 == type_id,
            None => true,
        }
    }

    /// The rule of the hook.
    pub closed spec fn rule(&self) -> Rule {
        self.rule
    }

    /// The changes the rule emits for `change`, whether or not the hook runs
    /// on it.
    pub open spec fn rule_reaction(
        &self,
        change: ChangeView,
        components: Map<ComponentInstanceId, ComponentView>,
    ) -> Seq<ChangeView> {
        self.rule().reaction(change, components)
    }

    /// The resource writes the rule queues for `change`, whether or not the
    /// hook runs on it.
    pub open spec fn rule_requests(
        &self,
        change: ChangeView,
        components: Map<ComponentInstanceId, ComponentView>,
    ) -> Seq<RequestView> {
        self.rule().requests(change, components)
    }

    /// The changes the hook emits for `change`: those of its rule if it runs
    /// on the change, none otherwise.
    pub open spec fn reaction(
        &self,
        change: ChangeView,
        components: Map<ComponentInstanceId, ComponentView>,
    ) -> Seq<ChangeView> {
        if self.applies_to(change) {
            self.rule_reaction(change, components)
        } else {
            Seq::empty()
        }
    }

    /// The resource writes the hook queues for `change`: those of its rule if
    /// it runs on the change, none otherwise.
    pub open spec fn requests(
        &self,
        change: ChangeView,
        components: Map<ComponentInstanceId, ComponentView>,
    ) -> Seq<RequestView> {
        if self.applies_to(change) {
            self.rule_requests(change, components)
        } else {
            Seq::empty()
        }
    }

    /// An untyped hook with the given rule.
    pub fn new(rule: Rule) -> (registered: Self)
        ensures
            registered.rule() == rule,
            registered.component_type() is None,
    {
        ChangeHook { rule, component_type: None }
    }

    /// A hook with the given rule, restricted to changes of components of
    /// type `T`.
    pub fn new_typed<T: ComponentType>(rule: Rule) -> (registered: Self)
        ensures
            registered.rule() == rule,
            registered.component_type() == Some(type_id_of::<T>()),
    {
        ChangeHook { rule, component_type: Some(type_id::<T>()) }
    }

    /// The position rule, restricted to `Position`: it emits no change and
    /// queues the writes that keep the spatial index up to date.
    pub fn position() -> (registered: Self)
        ensures
            registered.component_type() == Some(type_id_of::<Position>()),
            forall|change: ChangeView, components: Map<ComponentInstanceId, ComponentView>|
                #![trigger registered.rule_reaction(change, components)]
                registered.rule_reaction(change, components) == Seq::<ChangeView>::empty(),
            forall|change: ChangeView, components: Map<ComponentInstanceId, ComponentView>|
                #![trigger registered.rule_requests(change, components)]
                registered.rule_requests(change, components) == position_requests(
                    change,
                    components,
                ),
    {
        ChangeHook { rule: Rule::Position, component_type: Some(type_id::<Position>()) }
    }

    /// The children rule, restricted to `Children`.
    pub fn children() -> (registered: Self)
        ensures
            registered.component_type() == Some(type_id_of::<Children>()),
            forall|change: ChangeView, components: Map<ComponentInstanceId, ComponentView>|
                #![trigger registered.rule_reaction(change, components)]
                registered.rule_reaction(change, components) == children_reaction(
                    change,
                    components,
                ),
            forall|change: ChangeView, components: Map<ComponentInstanceId, ComponentView>|
                #![trigger registered.rule_requests(change, components)]
                registered.rule_requests(change, components) == Seq::<RequestView>::empty(),
    {
        ChangeHook { rule: Rule::Children, component_type: Some(type_id::<Children>()) }
    }

    /// The parent rule, restricted to `Parent`.
    pub fn parent() -> (registered: Self)
        ensures
            registered.component_type() == Some(type_id_of::<Parent>()),
            forall|change: ChangeView, components: Map<ComponentInstanceId, ComponentView>|
                #![trigger registered.rule_reaction(change, components)]
                registered.rule_reaction(change, components) == parent_reaction(
                    change,
                    components,
                ),
            forall|change: ChangeView, components: Map<ComponentInstanceId, ComponentView>|
                #![trigger registered.rule_requests(change, components)]
                registered.rule_requests(change, components) == Seq::<RequestView>::empty(),
    {
        ChangeHook { rule: Rule::Parent, component_type: Some(type_id::<Parent>()) }
    }

    /// Runs the hook on `change` if it applies to it.
    pub fn execute(&self, change: &Change, store: &Store, writer: &mut ResourceWriter) -> (changes:
        Vec<Change>)
        requires
            store.wf(),
        ensures
            change_views(changes@) == self.reaction(change@, store@),
            final(writer)@ == old(writer)@ + self.requests(change@, store@),
    {
        let applies = match self.component_type {
            Some(type_id) => change.0.get_type() == type_id,
            None => true,
        };
        if applies {
            match &self.rule {
                Rule::Position => position_hook(change, store, writer),
                Rule::Children => {
                    let changes = changed_children_hook(change, store, writer);
                    assert(writer@ =~= old(writer)@ + Seq::<RequestView>::empty());
                    changes
                },
                Rule::Parent => {
                    let changes = removed_parent_hook(change, store, writer);
                    assert(writer@ =~= old(writer)@ + Seq::<RequestView>::empty());
                    changes
                },
                Rule::Custom(hook) => hook.execute(change, store, writer),
            }
        } else {
            let changes: Vec<Change> = Vec::new();
            assert(change_views(changes@) =~= Seq::<ChangeView>::empty());
            assert(writer@ =~= old(writer)@ + Seq::<RequestView>::empty());
            changes
        }
    }

    pub fn get_type(&self) -> (component_type: Option<ComponentTypeId>)
        ensures
            component_type == self.component_type(),
    {
        self.component_type
    }
}

/// Brings entities that were written out back into the world.
///
/// Given the identifiers asked for, a loader returns the components it has
/// for them; the world adds those through the change pipeline.
pub trait Loader: Send + Sync {
    /// Whether the loader may return `loaded` for the entities `ids`, given
    /// the components of the store. What a loader has for an entity lies
    /// outside the world and may change between two loads. A loader that
    /// does not say what it may return leaves it open.
    open spec fn loads(
        &self,
        ids: Seq<EntityId>,
        components: Map<ComponentInstanceId, ComponentView>,
        loaded: Seq<ComponentView>,
    ) -> bool {
        arbitrary()
    }

    fn load(&self, id: Vec<EntityId>, store: &Store) -> (components: Vec<UntypedComponent>)
        requires
            store.wf(),
        ensures
            self.loads(id@, store@, crate::component::component_views(components@)),
    ;
}

/// Writes components out when they are unloaded from the world.
pub trait Unloader: Send + Sync {
    fn hook(&self, component: Vec<UntypedComponent>, store: &Store)
        requires
            store.wf(),
    ;
}

/// A loader of any type, held as the loader it is.
pub struct HeldLoader<L: Loader> {
    pub inner: L,
}

impl<L: Loader> Loader for HeldLoader<L> {
    open spec fn loads(
        &self,
        ids: Seq<EntityId>,
        components: Map<ComponentInstanceId, ComponentView>,
        loaded: Seq<ComponentView>,
    ) -> bool {
        self.inner.loads(ids, components, loaded)
    }

    fn load(&self, id: Vec<EntityId>, store: &Store) -> (components: Vec<UntypedComponent>) {
        self.inner.load(id, store)
    }
}

} // verus!
