//! The components that come with the runtime, and the hooks that keep
//! parents and children in step.

use vstd::prelude::*;
use vstd::slice::slice_to_vec;
use vstd::utf8::{decode_utf8, encode_utf8};
use crate::codec::{
    entities_of_bytes, entity_bytes, i32_bytes, i32_of_bytes, lemma_bytes_of_entities,
    lemma_entity_bytes, lemma_number_round_trip, read_i32, read_u64, tail, text_from_utf8,
    u64_bytes, u64_of_bytes, write_i32, write_u64,
};
use crate::component::{
    instance_id_of, ComponentInstanceId, ComponentType, ComponentView, UntypedComponent,
};
use crate::entity_id::EntityId;
use crate::hook::Hook;
use crate::query::{change_views, Change, ChangeType, ChangeView};
use crate::resource::RequestView;
use crate::resource_writer::ResourceWriter;
use crate::store::Store;

verus! {

/// Where an entity is, on a grid of whole numbers.
#[derive(Clone, Copy, PartialEq, Eq, Debug, Structural)]
pub struct Position {
    pub x: i32,
    pub y: i32,
}

/// What an entity is called.
#[derive(Debug)]
pub struct Name {
    pub name: String,
}

/// The player that an entity stands for.
#[derive(Debug)]
pub struct Player {
    pub player_name: String,
    pub player_id: u64,
}

/// The entities that an entity is the parent of.
#[derive(Debug)]
pub struct Children {
    pub entities: Vec<EntityId>,
}

/// The entity that an entity is a child of.
#[derive(Clone, Copy, PartialEq, Eq, Debug, Structural)]
pub struct Parent {
    pub entity: EntityId,
}

impl Clone for Name {
    fn clone(&self) -> (copy: Self)
        ensures
            copy.name@ == self.name@,
    {
        Name { name: self.name.clone() }
    }
}

impl Clone for Player {
    fn clone(&self) -> (copy: Self)
        ensures
            copy.player_name@ == self.player_name@,
            copy.player_id == self.player_id,
    {
        Player { player_name: self.player_name.clone(), player_id: self.player_id }
    }
}

impl Clone for Children {
    fn clone(&self) -> (copy: Self)
        ensures
            copy.entities@ == self.entities@,
    {
        let entities = self.entities.clone();
        assert(entities@ =~= self.entities@);
        Children { entities }
    }
}

impl ComponentType for Position {
    open spec fn canonical_name() -> Seq<char> {
        "melon::base_components::Position"@
    }

    /// The bytes of `x`, then the bytes of `y`.
    open spec fn encoding(&self) -> Seq<u8> {
        i32_bytes(self.x) + i32_bytes(self.y)
    }

    fn registered_name() -> (name: &'static str) {
        "melon::base_components::Position"
    }

    fn encode(&self) -> (bytes: Vec<u8>) {
        let mut bytes: Vec<u8> = Vec::new();
        write_i32(&mut bytes, self.x);
        write_i32(&mut bytes, self.y);
        bytes
    }

    fn decode(bytes: &Vec<u8>) -> (value: Option<Self>)
        ensures
            value matches Some(v) ==> v == (Position {
                x: i32_of_bytes(bytes@.subrange(0, 4)),
                y: i32_of_bytes(bytes@.subrange(4, 8)),
            }),
    {
        if bytes.len() == 8 {
            let value = Position { x: read_i32(bytes, 0), y: read_i32(bytes, 4) };
            proof {
                lemma_number_round_trip();
                assert(value.encoding() =~= bytes@.subrange(0, 4) + bytes@.subrange(4, 8));
                assert(bytes@.subrange(0, 4) + bytes@.subrange(4, 8) =~= bytes@);
            }
            Some(value)
        } else {
            proof {
                lemma_number_round_trip();
                assert forall|other: Self| #[trigger] other.encoding() != bytes@ by {
                    assert(other.encoding().len() == 8);
                }
            }
            None
        }
    }
}

impl ComponentType for Name {
    open spec fn canonical_name() -> Seq<char> {
        "melon::base_components::Name"@
    }

    /// The UTF-8 bytes of the name.
    open spec fn encoding(&self) -> Seq<u8> {
        encode_utf8(self.name@)
    }

    fn registered_name() -> (name: &'static str) {
        "melon::base_components::Name"
    }

    fn encode(&self) -> (bytes: Vec<u8>) {
        slice_to_vec(self.name.as_str().as_bytes())
    }

    fn decode(bytes: &Vec<u8>) -> (value: Option<Self>)
        ensures
            value matches Some(v) ==> v.name@ == decode_utf8(bytes@),
    {
        match text_from_utf8(bytes.clone()) {
            Some(name) => {
                proof {
                    vstd::utf8::decode_utf8_encode_utf8(bytes@);
                }
                Some(Name { name })
            },
            None => {
                proof {
                    assert forall|other: Self| #[trigger] other.encoding() != bytes@ by {
                        vstd::utf8::encode_utf8_valid_utf8(other.name@);
                    }
                }
                None
            },
        }
    }
}

impl ComponentType for Player {
    open spec fn canonical_name() -> Seq<char> {
        "melon::base_components::Player"@
    }

    /// The bytes of the player's number, then the UTF-8 bytes of the
    /// player's name.
    open spec fn encoding(&self) -> Seq<u8> {
        u64_bytes(self.player_id) + encode_utf8(self.player_name@)
    }

    fn registered_name() -> (name: &'static str) {
        "melon::base_components::Player"
    }

    fn encode(&self) -> (bytes: Vec<u8>) {
        let mut bytes: Vec<u8> = Vec::new();
        write_u64(&mut bytes, self.player_id);
        let mut name = slice_to_vec(self.player_name.as_str().as_bytes());
        bytes.append(&mut name);
        bytes
    }

    fn decode(bytes: &Vec<u8>) -> (value: Option<Self>)
        ensures
            value matches Some(v) ==> v.player_id == u64_of_bytes(bytes@.subrange(0, 8))
                && v.player_name@ == decode_utf8(bytes@.subrange(8, bytes.len() as int)),
    {
        if bytes.len() < 8 {
            proof {
                lemma_number_round_trip();
                assert forall|other: Self| #[trigger] other.encoding() != bytes@ by {
                    assert(other.encoding().len() >= 8);
                }
            }
            return None;
        }
        let player_id = read_u64(bytes, 0);
        match text_from_utf8(tail(bytes, 8)) {
            Some(player_name) => {
                let value = Player { player_name, player_id };
                proof {
                    lemma_number_round_trip();
                    let rest = bytes@.subrange(8, bytes.len() as int);
                    vstd::utf8::decode_utf8_encode_utf8(rest);
                    assert(value.encoding() =~= bytes@.subrange(0, 8) + rest);
                    assert(bytes@.subrange(0, 8) + rest =~= bytes@);
                }
                Some(value)
            },
            None => {
                proof {
                    lemma_number_round_trip();
                    assert forall|other: Self| #[trigger] other.encoding() != bytes@ by {
                        vstd::utf8::encode_utf8_valid_utf8(other.player_name@);
                        let encoded = other.encoding();
                        assert(encoded.subrange(8, encoded.len() as int) =~= encode_utf8(
                            other.player_name@,
                        ));
                    }
                }
                None
            },
        }
    }
}

impl ComponentType for Children {
    open spec fn canonical_name() -> Seq<char> {
        "melon::base_components::Children"@
    }

    /// The bytes of the children, child after child.
    open spec fn encoding(&self) -> Seq<u8> {
        entity_bytes(self.entities@)
    }

    fn registered_name() -> (name: &'static str) {
        "melon::base_components::Children"
    }

    fn encode(&self) -> (bytes: Vec<u8>) {
        let mut bytes: Vec<u8> = Vec::new();
        let mut i: usize = 0;
        assert(self.entities@.subrange(0, 0) =~= Seq::<EntityId>::empty());
        while i < self.entities.len()
            invariant
                i <= self.entities.len(),
                bytes@ == entity_bytes(self.entities@.subrange(0, i as int)),
            decreases self.entities.len() - i,
        {
            proof {
                let next = self.entities@.subrange(0, i + 1);
                assert(next.drop_last() =~= self.entities@.subrange(0, i as int));
                assert(next.last() == self.entities[i as int]);
            }
            write_u64(&mut bytes, self.entities[i].0);
            i += 1;
        }
        assert(self.entities@.subrange(0, i as int) =~= self.entities@);
        bytes
    }

    fn decode(bytes: &Vec<u8>) -> (value: Option<Self>)
        ensures
            value matches Some(v) ==> v.entities@ == entities_of_bytes(bytes@),
    {
        if bytes.len() % 8 != 0 {
            proof {
                assert forall|other: Self| #[trigger] other.encoding() != bytes@ by {
                    lemma_entity_bytes(other.entities@);
                }
            }
            return None;
        }
        let count = bytes.len() / 8;
        let mut entities: Vec<EntityId> = Vec::new();
        let mut i: usize = 0;
        while i < count
            invariant
                i <= count,
                count == bytes.len() / 8,
                bytes.len() % 8 == 0,
                entities.len() == i,
                forall|j: int| 0 <= j < i ==> entities[j] == entities_of_bytes(bytes@)[j],
            decreases count - i,
        {
            entities.push(EntityId(read_u64(bytes, 8 * i)));
            i += 1;
        }
        proof {
            assert(entities@ =~= entities_of_bytes(bytes@));
            lemma_bytes_of_entities(bytes@);
        }
        Some(Children { entities })
    }
}

impl ComponentType for Parent {
    open spec fn canonical_name() -> Seq<char> {
        "melon::base_components::Parent"@
    }

    /// The bytes of the parent.
    open spec fn encoding(&self) -> Seq<u8> {
        u64_bytes(self.entity.0)
    }

    fn registered_name() -> (name: &'static str) {
        "melon::base_components::Parent"
    }

    fn encode(&self) -> (bytes: Vec<u8>) {
        let mut bytes: Vec<u8> = Vec::new();
        write_u64(&mut bytes, self.entity.0);
        bytes
    }

    fn decode(bytes: &Vec<u8>) -> (value: Option<Self>)
        ensures
            value matches Some(v) ==> v == (Parent { entity: EntityId(u64_of_bytes(bytes@)) }),
    {
        if bytes.len() == 8 {
            let value = Parent { entity: EntityId(read_u64(bytes, 0)) };
            proof {
                lemma_number_round_trip();
                assert(bytes@.subrange(0, 8) =~= bytes@);
            }
            Some(value)
        } else {
            proof {
                lemma_number_round_trip();
                assert forall|other: Self| #[trigger] other.encoding() != bytes@ by {
                    assert(other.encoding().len() == 8);
                }
            }
            None
        }
    }
}

/// The `Parent` component that makes `child` a child of `parent`.
pub open spec fn parent_link(parent: EntityId, child: EntityId) -> ComponentView {
    ComponentView { id: instance_id_of::<Parent>(child), data: u64_bytes(parent.0) }
}

/// What the children rule emits for one child of a `Children` component that
/// was added or updated on `parent`: an `AddComponent` of the link to the
/// parent if the child has no `Parent`, an `UpdateComponent` of it if the
/// child's `Parent` names another entity, and nothing if the child is linked
/// to the parent already.
pub open spec fn adoption(
    parent: EntityId,
    child: EntityId,
    components: Map<ComponentInstanceId, ComponentView>,
) -> Seq<ChangeView> {
    let slot = instance_id_of::<Parent>(child);
    if components.contains_key(slot) && components[slot].holds::<Parent>() {
        if EntityId(u64_of_bytes(components[slot].data)) != parent {
            seq![
                ChangeView {
                    component: parent_link(parent, child),
                    kind: ChangeType::UpdateComponent,
                },
            ]
        } else {
            Seq::empty()
        }
    } else {
        seq![ChangeView { component: parent_link(parent, child), kind: ChangeType::AddComponent }]
    }
}

/// What the children rule emits for the children of a `Children` component
/// that was added or updated, child after child.
pub open spec fn adoptions(
    parent: EntityId,
    children: Seq<EntityId>,
    components: Map<ComponentInstanceId, ComponentView>,
) -> Seq<ChangeView>
    decreases children.len(),
{
    if children.len() == 0 {
        Seq::empty()
    } else {
        adoptions(parent, children.drop_last(), components) + adoption(
            parent,
            children.last(),
            components,
        )
    }
}

/// What the children rule emits for one child of a `Children` component that
/// was removed or unloaded: the removal, of the same kind, of the child's
/// `Parent` component, if it has one.
pub open spec fn release(
    child: EntityId,
    kind: ChangeType,
    components: Map<ComponentInstanceId, ComponentView>,
) -> Seq<ChangeView> {
    let slot = instance_id_of::<Parent>(child);
    if components.contains_key(slot) {
        seq![ChangeView { component: components[slot], kind }]
    } else {
        Seq::empty()
    }
}

/// What the children rule emits for the children of a `Children` component
/// that was removed or unloaded, child after child.
pub open spec fn releases(
    children: Seq<EntityId>,
    kind: ChangeType,
    components: Map<ComponentInstanceId, ComponentView>,
) -> Seq<ChangeView>
    decreases children.len(),
{
    if children.len() == 0 {
        Seq::empty()
    } else {
        releases(children.drop_last(), kind, components) + release(
            children.last(),
            kind,
            components,
        )
    }
}

/// The children rule. It reacts to changes of `Children` components: when
/// one is added or updated, its children are linked to the entity that
/// carries it; when one is removed or unloaded, its children lose their
/// `Parent` component.
pub open spec fn children_reaction(
    change: ChangeView,
    components: Map<ComponentInstanceId, ComponentView>,
) -> Seq<ChangeView> {
    if change.component.holds::<Children>() {
        let children = entities_of_bytes(change.component.data);
        match change.kind {
            ChangeType::AddComponent | ChangeType::UpdateComponent => adoptions(
                change.component.id.0,
                children,
                components,
            ),
            ChangeType::RemoveComponent | ChangeType::UnloadComponent => releases(
                children,
                change.kind,
                components,
            ),
        }
    } else {
        Seq::empty()
    }
}

/// The entities of a list but for `entity`, in their order.
pub open spec fn without(entities: Seq<EntityId>, entity: EntityId) -> Seq<EntityId>
    decreases entities.len(),
{
    if entities.len() == 0 {
        Seq::empty()
    } else if entities.last() == entity {
        without(entities.drop_last(), entity)
    } else {
        without(entities.drop_last(), entity).push(entities.last())
    }
}

/// The parent rule. It reacts to the removal of a `Parent` component from a
/// child: if the parent it names has a `Children` component that lists the
/// child, that component is updated to one without the child.
pub open spec fn parent_reaction(
    change: ChangeView,
    components: Map<ComponentInstanceId, ComponentView>,
) -> Seq<ChangeView> {
    let child = change.component.id.0;
    let parent = EntityId(u64_of_bytes(change.component.data));
    let slot = instance_id_of::<Children>(parent);
    if change.kind == ChangeType::RemoveComponent && change.component.holds::<Parent>()
        && components.contains_key(slot) && components[slot].holds::<Children>()
        && entities_of_bytes(components[slot].data).contains(child) {
        seq![
            ChangeView {
                component: ComponentView {
                    id: slot,
                    data: entity_bytes(without(entities_of_bytes(components[slot].data), child)),
                },
                kind: ChangeType::UpdateComponent,
            },
        ]
    } else {
        Seq::empty()
    }
}

/// Computes the reaction of the children rule to `change`. Nothing is
/// written to a resource.
pub fn changed_children_hook(change: &Change, store: &Store, writer: &mut ResourceWriter) -> (changes:
    Vec<Change>)
    ensures
        change_views(changes@) == children_reaction(change@, store@),
        final(writer)@ == old(writer)@,
{
    let mut changes: Vec<Change> = Vec::new();
    let carried = match change.0.get::<Children>() {
        Some(carried) => carried,
        None => {
            assert(change_views(changes@) =~= Seq::<ChangeView>::empty());
            return changes;
        },
    };
    let parent = change.0.entity_id();
    let kind = change.1;
    let ghost children = entities_of_bytes(change@.component.data);
    proof {
        lemma_entity_bytes(carried.entities@);
        assert(carried.entities@ == children);
    }
    let adopting = match kind {
        ChangeType::AddComponent | ChangeType::UpdateComponent => true,
        ChangeType::RemoveComponent | ChangeType::UnloadComponent => false,
    };
    let mut i: usize = 0;
    proof {
        assert(change_views(changes@) =~= Seq::<ChangeView>::empty());
    }
    while i < carried.entities.len()
        invariant
            i <= carried.entities.len(),
            carried.entities@ == children,
            parent == change@.component.id.0,
            kind == change@.kind,
            adopting <==> (kind == ChangeType::AddComponent || kind == ChangeType::UpdateComponent),
            adopting ==> change_views(changes@) == adoptions(
                parent,
                children.subrange(0, i as int),
                store@,
            ),
            !adopting ==> change_views(changes@) == releases(
                children.subrange(0, i as int),
                kind,
                store@,
            ),
        decreases carried.entities.len() - i,
    {
        let child = carried.entities[i];
        let ghost before = changes@;
        proof {
            let next = children.subrange(0, i + 1);
            assert(next.drop_last() =~= children.subrange(0, i as int));
            assert(next.last() == child);
            lemma_number_round_trip();
        }
        if adopting {
            match store.get_component::<Parent>(child) {
                Some(current) => {
                    assert(current.encoding() == u64_bytes(current.entity.0));
                    if current.entity != parent {
                        changes.push(
                            Change(
                                UntypedComponent::new(Parent { entity: parent }, child),
                                ChangeType::UpdateComponent,
                            ),
                        );
                    }
                },
                None => {
                    changes.push(
                        Change(
                            UntypedComponent::new(Parent { entity: parent }, child),
                            ChangeType::AddComponent,
                        ),
                    );
                },
            }
            proof {
                assert(change_views(changes@) =~= change_views(before) + adoption(
                    parent,
                    child,
                    store@,
                ));
            }
        } else {
            match store.get_component_by_instance_id(ComponentInstanceId::new::<Parent>(child)) {
                Some(current) => {
                    changes.push(Change(current.clone(), kind));
                },
                None => {},
            }
            proof {
                assert(change_views(changes@) =~= change_views(before) + release(
                    child,
                    kind,
                    store@,
                ));
            }
        }
        i += 1;
    }
    proof {
        assert(children.subrange(0, i as int) =~= children);
    }
    changes
}

/// The entities of a list but for `entity`.
fn list_without(entities: &Vec<EntityId>, entity: EntityId) -> (rest: Vec<EntityId>)
    ensures
        rest@ == without(entities@, entity),
        rest.len() < entities.len() <==> entities@.contains(entity),
{
    let mut rest: Vec<EntityId> = Vec::new();
    let mut i: usize = 0;
    assert(entities@.subrange(0, 0) =~= Seq::<EntityId>::empty());
    while i < entities.len()
        invariant
            i <= entities.len(),
            rest@ == without(entities@.subrange(0, i as int), entity),
            rest.len() <= i,
            rest.len() < i <==> entities@.subrange(0, i as int).contains(entity),
        decreases entities.len() - i,
    {
        proof {
            let front = entities@.subrange(0, i as int);
            let next = entities@.subrange(0, i + 1);
            assert(next.drop_last() =~= front);
            assert(next.last() == entities[i as int]);
            if front.contains(entity) {
                let at = choose|at: int| 0 <= at < front.len() && front[at] == entity;
                assert(next[at] == entity);
            }
            if next.contains(entity) && entities[i as int] != entity {
                let at = choose|at: int| 0 <= at < next.len() && next[at] == entity;
                assert(front[at] == entity);
            }
            if entities[i as int] == entity {
                assert(next[i as int] == entity);
            }
        }
        if entities[i] != entity {
            rest.push(entities[i]);
        }
        i += 1;
    }
    assert(entities@.subrange(0, i as int) =~= entities@);
    rest
}

/// Computes the reaction of the parent rule to `change`. Nothing is written
/// to a resource.
pub fn removed_parent_hook(change: &Change, store: &Store, writer: &mut ResourceWriter) -> (changes:
    Vec<Change>)
    ensures
        change_views(changes@) == parent_reaction(change@, store@),
        final(writer)@ == old(writer)@,
{
    let mut changes: Vec<Change> = Vec::new();
    proof {
        assert(change_views(changes@) =~= Seq::<ChangeView>::empty());
        lemma_number_round_trip();
    }
    match change.1 {
        ChangeType::RemoveComponent => {},
        _ => {
            return changes;
        },
    }
    let link = match change.0.get::<Parent>() {
        Some(link) => link,
        None => {
            return changes;
        },
    };
    let child = change.0.entity_id();
    let parent = link.entity;
    assert(link.encoding() == u64_bytes(link.entity.0));
    assert(link.encoding() == change@.component.data);
    assert(parent == EntityId(u64_of_bytes(change@.component.data)));
    match store.get_component::<Children>(parent) {
        Some(listed) => {
            let ghost stored = store@[instance_id_of::<Children>(parent)];
            proof {
                lemma_entity_bytes(listed.entities@);
                assert(listed.entities@ == entities_of_bytes(stored.data));
            }
            let rest = list_without(&listed.entities, child);
            if rest.len() < listed.entities.len() {
                let updated = UntypedComponent::new(Children { entities: rest }, parent);
                changes.push(Change(updated, ChangeType::UpdateComponent));
                assert(change_views(changes@) =~= parent_reaction(change@, store@));
            }
        },
        None => {},
    }
    changes
}

/// The children rule as a hook, to be registered for `Children`.
pub struct ChildrenHook {}

impl Hook for ChildrenHook {
    open spec fn reaction(
        &self,
        change: ChangeView,
        components: Map<ComponentInstanceId, ComponentView>,
    ) -> Seq<ChangeView> {
        children_reaction(change, components)
    }

    open spec fn requests(
        &self,
        change: ChangeView,
        components: Map<ComponentInstanceId, ComponentView>,
    ) -> Seq<RequestView> {
        Seq::empty()
    }

    fn execute(&self, change: &Change, store: &Store, writer: &mut ResourceWriter) -> (changes: Vec<
        Change,
    >) {
        let changes = changed_children_hook(change, store, writer);
        assert(writer@ =~= old(writer)@ + Seq::<RequestView>::empty());
        changes
    }
}

/// The parent rule as a hook, to be registered for `Parent`.
pub struct ParentHook {}

impl Hook for ParentHook {
    open spec fn reaction(
        &self,
        change: ChangeView,
        components: Map<ComponentInstanceId, ComponentView>,
    ) -> Seq<ChangeView> {
        parent_reaction(change, components)
    }

    open spec fn requests(
        &self,
        change: ChangeView,
        components: Map<ComponentInstanceId, ComponentView>,
    ) -> Seq<RequestView> {
        Seq::empty()
    }

    fn execute(&self, change: &Change, store: &Store, writer: &mut ResourceWriter) -> (changes: Vec<
        Change,
    >) {
        let changes = removed_parent_hook(change, store, writer);
        assert(writer@ =~= old(writer)@ + Seq::<RequestView>::empty());
        changes
    }
}

} // verus!
