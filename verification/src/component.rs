//! Component identifiers and the type-erased component value.
//!
//! A component is a value of some registered type, attached to one entity.
//! The store keeps it type-erased: its instance identifier and the bytes its
//! type encodes it to. The typed form is recovered by decoding.

use vstd::prelude::*;
use crate::entity_id::EntityId;
use crate::hashing::{hash_of_name, string_hash};

verus! {

/// Names a component type: the hash of the type's canonical name.
#[derive(Clone, Copy, PartialEq, Eq, Hash, Debug, Structural)]
pub struct ComponentTypeId(pub u64);

/// Names one component instance: the entity it belongs to and its type. An
/// entity has at most one component of a type.
#[derive(Clone, Copy, PartialEq, Eq, Hash, Debug, Structural)]
pub struct ComponentInstanceId(pub EntityId, pub ComponentTypeId);

/// The type identifier that belongs to a canonical name.
pub open spec fn type_id_of_name(name: Seq<char>) -> ComponentTypeId {
    ComponentTypeId(hash_of_name(name))
}

/// The type identifier of the component type `T`.
pub open spec fn type_id_of<T: ComponentType>() -> ComponentTypeId {
    type_id_of_name(T::canonical_name())
}

/// The instance identifier of the component of type `T` on `entity`.
pub open spec fn instance_id_of<T: ComponentType>(entity: EntityId) -> ComponentInstanceId {
    ComponentInstanceId(entity, type_id_of::<T>())
}

/// A value type that can be attached to entities.
///
/// A component type has a canonical name, from which its identifier is
/// derived, and a byte encoding. Decoding is the inverse of encoding: what
/// `decode` returns encodes to the bytes it was given, and it turns down only
/// bytes that no value encodes to.
pub trait ComponentType: Sized {
    /// The name the type is registered under. A type that does not say what
    /// it is leaves it open.
    open spec fn canonical_name() -> Seq<char> {
        arbitrary()
    }

    /// The bytes that stand for the value. A type that does not say what
    /// they are leaves them open.
    open spec fn encoding(&self) -> Seq<u8> {
        arbitrary()
    }

    fn registered_name() -> (name: &'static str)
        ensures
            name@ == Self::canonical_name(),
    ;

    fn encode(&self) -> (bytes: Vec<u8>)
        ensures
            bytes@ == self.encoding(),
    ;

    fn decode(bytes: &Vec<u8>) -> (value: Option<Self>)
        ensures
            value matches Some(v) ==> v.encoding() == bytes@,
            value is None ==> forall|other: Self| #[trigger] other.encoding() != bytes@,
    ;
}

/// Whether the bytes stand for a value of type `T`: some value encodes to
/// them.
pub open spec fn decodable<T: ComponentType>(bytes: Seq<u8>) -> bool {
    exists|value: T| #[trigger] value.encoding() == bytes
}

/// The identifier of the component type `T`.
pub fn type_id<T: ComponentType>() -> (id: ComponentTypeId)
    ensures
        id == type_id_of::<T>(),
{
    ComponentTypeId(string_hash(T::registered_name()))
}

/// The identifier of the component type registered under `name`.
pub fn type_id_from_str(name: &str) -> (id: ComponentTypeId)
    ensures
        id == type_id_of_name(name@),
{
    ComponentTypeId(string_hash(name))
}

impl ComponentTypeId {
    pub fn new_with_number(id: u64) -> (type_id: Self)
        ensures
            type_id == ComponentTypeId(id),
    {
        ComponentTypeId(id)
    }

    pub fn new<T: ComponentType>() -> (type_id: Self)
        ensures
            type_id == type_id_of::<T>(),
    {
        type_id::<T>()
    }

    pub fn num(&self) -> (number: u64)
        ensures
            number == self.0,
    {
        self.0
    }
}

impl ComponentInstanceId {
    pub fn new_explicit(entity_id: EntityId, component_type_id: ComponentTypeId) -> (id: Self)
        ensures
            id == ComponentInstanceId(entity_id, component_type_id),
    {
        ComponentInstanceId(entity_id, component_type_id)
    }

    pub fn new<T: ComponentType>(entity_id: EntityId) -> (id: Self)
        ensures
            id == instance_id_of::<T>(entity_id),
    {
        ComponentInstanceId(entity_id, type_id::<T>())
    }

    pub fn component_type_id(&self) -> (type_id: ComponentTypeId)
        ensures
            type_id == self.1,
    {
        self.1
    }

    pub fn entity_id(&self) -> (entity: EntityId)
        ensures
            entity == self.0,
    {
        self.0
    }
}

/// What a type-erased component is: its instance identifier and its encoding.
pub struct ComponentView {
    pub id: ComponentInstanceId,
    pub data: Seq<u8>,
}

/// A type-erased component. It is never changed once made: a component is
/// updated by putting another value in its place.
#[derive(Debug)]
pub struct UntypedComponent {
    instance_id: ComponentInstanceId,
    data: Vec<u8>,
}

impl View for UntypedComponent {
    type V = ComponentView;

    closed spec fn view(&self) -> ComponentView {
        ComponentView { id: self.instance_id, data: self.data@ }
    }
}

impl Clone for UntypedComponent {
    fn clone(&self) -> (copy: Self)
        ensures
            copy@ == self@,
    {
        let data = self.data.clone();
        assert(data@ =~= self.data@);
        UntypedComponent { instance_id: self.instance_id, data }
    }
}

impl ComponentView {
    /// Whether the component holds a value of type `T`: it is of that type and
    /// its bytes decode.
    pub open spec fn holds<T: ComponentType>(self) -> bool {
        self.id.1 == type_id_of::<T>() && decodable::<T>(self.data)
    }
}

/// A component made from a value holds a value of its type.
pub proof fn lemma_encoding_holds<T: ComponentType>(value: T, entity: EntityId)
    ensures
        (ComponentView { id: instance_id_of::<T>(entity), data: value.encoding() }).holds::<T>(),
{
    assert(decodable::<T>(value.encoding()));
}

/// The components of a sequence, as plain values.
pub open spec fn component_views(components: Seq<UntypedComponent>) -> Seq<ComponentView> {
    Seq::new(components.len(), |i: int| components[i]@)
}

impl UntypedComponent {

    /// Type-erases `component` and attaches it to `entity_id`.
    pub fn new<T: ComponentType>(component: T, entity_id: EntityId) -> (untyped: Self)
        ensures
            untyped@ == (ComponentView {
                id: instance_id_of::<T>(entity_id),
                data: component.encoding(),
            }),
    {
        UntypedComponent {
            instance_id: ComponentInstanceId::new::<T>(entity_id),
            data: component.encode(),
        }
    }

    /// A component made of an instance identifier and an encoding at hand.
    pub fn from_encoding(id: ComponentInstanceId, data: Vec<u8>) -> (untyped: Self)
        ensures
            untyped@ == (ComponentView { id, data: data@ }),
    {
        UntypedComponent { instance_id: id, data }
    }

    /// The typed value, if the component is of type `T` and decodes.
    pub fn get<T: ComponentType>(&self) -> (value: Option<T>)
        ensures
            value is Some <==> self@.holds::<T>(),
            value matches Some(v) ==> v.encoding() == self@.data,
    {
        if self.instance_id.1 == type_id::<T>() {
            T::decode(&self.data)
        } else {
            None
        }
    }

    /// The typed value of a component known to hold one.
    pub fn get_unchecked<T: ComponentType>(&self) -> (value: T)
        requires
            self@.holds::<T>(),
        ensures
            value.encoding() == self@.data,
    {
        match T::decode(&self.data) {
            Some(value) => value,
            None => {
                proof {
                    assert(false);
                }
                vstd::pervasive::unreached()
            },
        }
    }

    pub fn get_type(&self) -> (type_id: ComponentTypeId)
        ensures
            type_id == self@.id.1,
    {
        self.instance_id.1
    }

    pub fn entity_id(&self) -> (entity: EntityId)
        ensures
            entity == self@.id.0,
    {
        self.instance_id.0
    }

    pub fn id(&self) -> (id: ComponentInstanceId)
        ensures
            id == self@.id,
    {
        self.instance_id
    }

    /// The encoding of the value.
    pub fn data(&self) -> (data: &Vec<u8>)
        ensures
            data@ == self@.data,
    {
        &self.data
    }
}

/// A typed handle over a component, with copy-on-write semantics.
///
/// Reading leaves the component as it was. The first mutable access marks the
/// handle as changed; from then on the type-erased form is made from the new
/// value.
pub struct TypedComponent<T: ComponentType> {
    value: T,
    source: UntypedComponent,
    changed: bool,
}

impl<T: ComponentType> TypedComponent<T> {
    /// The typed value the handle holds now.
    pub closed spec fn value(&self) -> T {
        self.value
    }

    /// The component the handle was made from.
    pub closed spec fn source(&self) -> ComponentView {
        self.source@
    }

    /// Whether the value was borrowed mutably.
    pub closed spec fn changed(&self) -> bool {
        self.changed
    }

    /// The type-erased form of the handle: the component it was made from
    /// while unchanged, the new value under the same entity afterwards.
    pub open spec fn untyped(&self) -> ComponentView {
        if self.changed() {
            ComponentView {
                id: instance_id_of::<T>(self.source().id.0),
                data: self.value().encoding(),
            }
        } else {
            self.source()
        }
    }

    /// A handle over `component`, if it holds a value of type `T`.
    pub fn new(component: UntypedComponent) -> (handle: Option<Self>)
        ensures
            handle is Some <==> component@.holds::<T>(),
            handle matches Some(h) ==> {
                &&& h.source() == component@
                &&& !h.changed()
                &&& h.value().encoding() == component@.data
            },
    {
        match component.get::<T>() {
            Some(value) => Some(TypedComponent { value, source: component, changed: false }),
            None => None,
        }
    }

    pub fn get(&self) -> (value: &T)
        ensures
            *value == self.value(),
    {
        &self.value
    }

    pub fn make_mut(&mut self) -> (value: &mut T)
        ensures
            *value == old(self).value(),
            final(self).value() == *final(value),
            final(self).source() == old(self).source(),
            final(self).changed(),
    {
        self.changed = true;
        &mut self.value
    }

    /// Whether the value was borrowed mutably: the signal that the component
    /// has to be written back.
    pub fn is_changed(&self) -> (changed: bool)
        ensures
            changed == self.changed(),
    {
        self.changed
    }

    pub fn get_untyped(&self) -> (component: UntypedComponent)
        ensures
            component@ == self.untyped(),
    {
        if self.changed {
            UntypedComponent {
                instance_id: ComponentInstanceId::new::<T>(self.source.instance_id.0),
                data: self.value.encode(),
            }
        } else {
            self.source.clone()
        }
    }

    pub fn get_type_id(&self) -> (type_id: ComponentTypeId)
        ensures
            type_id == self.source().id.1,
    {
        self.source.instance_id.1
    }

    pub fn get_entity_id(&self) -> (entity: EntityId)
        ensures
            entity == self.source().id.0,
    {
        self.source.instance_id.0
    }

    pub fn get_instance_id(&self) -> (id: ComponentInstanceId)
        ensures
            id == self.source().id,
    {
        self.source.instance_id
    }
}

} // verus!
