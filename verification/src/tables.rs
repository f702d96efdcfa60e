//! The hash tables the store is built from.
//!
//! The tables are `hashbrown` sets and maps keyed by plain integers or by
//! strings. Each is held in a struct whose contents are named by a specification function, and
//! each method the library calls has a wrapper that says what the method does
//! to the contents. Nothing in this file is proved: the contracts restate what
//! the documentation of `hashbrown` promises.

use vstd::prelude::*;
use rayon::iter::ParallelIterator;
use crate::component::UntypedComponent;
use crate::lore::{texts_of, LoreEntry, LoreReader};
use crate::resource::Resource;

verus! {

/// A set of identifiers, held in a `hashbrown::HashSet<u64>`.
#[verifier::external_body]
pub struct IdSet {
    inner: hashbrown::HashSet<u64>,
}

/// The identifiers an `IdSet` holds.
pub uninterp spec fn id_set_contents(set: IdSet) -> Set<u64>;

impl View for IdSet {
    type V = Set<u64>;

    open spec fn view(&self) -> Set<u64> {
        id_set_contents(*self)
    }
}

/// `HashSet::new`: a set that holds nothing.
#[verifier::external_body]
pub(crate) fn id_set_new() -> (set: IdSet)
    ensures
        id_set_contents(set) == Set::<u64>::empty(),
{
    IdSet { inner: hashbrown::HashSet::new() }
}

/// `HashSet::insert`: the set gains `id`; the result tells whether it was new.
#[verifier::external_body]
pub(crate) fn id_set_insert(set: &mut IdSet, id: u64) -> (fresh: bool)
    ensures
        id_set_contents(*final(set)) == id_set_contents(*old(set)).insert(id),
        fresh == !id_set_contents(*old(set)).contains(id),
{
    set.inner.insert(id)
}

/// `HashSet::remove`: the set loses `id`; the result tells whether it was there.
#[verifier::external_body]
pub(crate) fn id_set_remove(set: &mut IdSet, id: u64) -> (present: bool)
    ensures
        id_set_contents(*final(set)) == id_set_contents(*old(set)).remove(id),
        present == id_set_contents(*old(set)).contains(id),
{
    set.inner.remove(&id)
}

/// `HashSet::len`: the number of identifiers in the set.
#[verifier::external_body]
pub(crate) fn id_set_len(set: &IdSet) -> (len: usize)
    ensures
        len == id_set_contents(*set).len(),
{
    set.inner.len()
}

/// `HashSet::iter`, collected: every identifier of the set once, in an order
/// that is not specified.
#[verifier::external_body]
pub(crate) fn id_set_to_vec(set: &IdSet) -> (ids: Vec<u64>)
    ensures
        ids@.no_duplicates(),
        forall|id: u64| ids@.contains(id) <==> id_set_contents(*set).contains(id),
{
    set.inner.iter().copied().collect()
}

/// `HashSet::intersection`, collected: the identifiers that both sets hold.
#[verifier::external_body]
pub(crate) fn id_set_intersection(left: &IdSet, right: &IdSet) -> (both: IdSet)
    ensures
        id_set_contents(both) == id_set_contents(*left).intersect(id_set_contents(*right)),
{
    IdSet { inner: left.inner.intersection(&right.inner).copied().collect() }
}

/// `HashSet::par_intersection`, collected: the identifiers that both sets
/// hold, found by the worker threads of `rayon`.
#[verifier::external_body]
pub(crate) fn id_set_par_intersection(left: &IdSet, right: &IdSet) -> (both: IdSet)
    ensures
        id_set_contents(both) == id_set_contents(*left).intersect(id_set_contents(*right)),
{
    IdSet { inner: left.inner.par_intersection(&right.inner).copied().collect() }
}

/// An index from an identifier to a set of identifiers, held in a
/// `hashbrown::HashMap<u64, IdSet>`.
#[verifier::external_body]
pub struct IdIndex {
    inner: hashbrown::HashMap<u64, IdSet>,
}

/// The entries an `IdIndex` holds.
pub uninterp spec fn id_index_contents(index: IdIndex) -> Map<u64, IdSet>;

impl View for IdIndex {
    type V = Map<u64, IdSet>;

    open spec fn view(&self) -> Map<u64, IdSet> {
        id_index_contents(*self)
    }
}

/// `HashMap::new`: an index without entries.
#[verifier::external_body]
pub(crate) fn id_index_new() -> (index: IdIndex)
    ensures
        id_index_contents(index) =~= Map::empty(),
{
    IdIndex { inner: hashbrown::HashMap::new() }
}

/// `HashMap::get`: the set stored under `key`, if there is one.
#[verifier::external_body]
pub(crate) fn id_index_get(index: &IdIndex, key: u64) -> (found: Option<&IdSet>)
    ensures
        found is Some <==> id_index_contents(*index).contains_key(key),
        found matches Some(set) ==> *set == id_index_contents(*index)[key],
{
    index.inner.get(&key)
}

/// `HashMap::insert`: `set` is stored under `key`, in place of what was there.
#[verifier::external_body]
pub(crate) fn id_index_insert(index: &mut IdIndex, key: u64, set: IdSet)
    ensures
        id_index_contents(*final(index)) == id_index_contents(*old(index)).insert(key, set),
{
    index.inner.insert(key, set);
}

/// `HashMap::remove`: the entry under `key` leaves the index and is returned.
#[verifier::external_body]
pub(crate) fn id_index_remove(index: &mut IdIndex, key: u64) -> (removed: Option<IdSet>)
    ensures
        id_index_contents(*final(index)) == id_index_contents(*old(index)).remove(key),
        removed is Some <==> id_index_contents(*old(index)).contains_key(key),
        removed matches Some(set) ==> set == id_index_contents(*old(index))[key],
{
    index.inner.remove(&key)
}

/// `HashMap::len`: the number of entries.
#[verifier::external_body]
pub(crate) fn id_index_len(index: &IdIndex) -> (len: usize)
    ensures
        len == id_index_contents(*index).dom().len(),
{
    index.inner.len()
}

/// The components of the store by instance, held in a
/// `hashbrown::HashMap<(u64, u64), UntypedComponent>`. A key is the number of
/// the entity followed by the number of the component type.
#[verifier::external_body]
pub struct ComponentTable {
    inner: hashbrown::HashMap<(u64, u64), UntypedComponent>,
}

/// The components a `ComponentTable` holds.
pub uninterp spec fn component_table_contents(table: ComponentTable) -> Map<
    (u64, u64),
    UntypedComponent,
>;

impl View for ComponentTable {
    type V = Map<(u64, u64), UntypedComponent>;

    open spec fn view(&self) -> Map<(u64, u64), UntypedComponent> {
        component_table_contents(*self)
    }
}

/// `HashMap::new`: a table without components.
#[verifier::external_body]
pub(crate) fn component_table_new() -> (table: ComponentTable)
    ensures
        component_table_contents(table) =~= Map::empty(),
{
    ComponentTable { inner: hashbrown::HashMap::new() }
}

/// `HashMap::get`: the component stored under `key`, if there is one.
#[verifier::external_body]
pub(crate) fn component_table_get(table: &ComponentTable, key: (u64, u64)) -> (found: Option<
    &UntypedComponent,
>)
    ensures
        found is Some <==> component_table_contents(*table).contains_key(key),
        found matches Some(component) ==> *component == component_table_contents(*table)[key],
{
    table.inner.get(&key)
}

/// `HashMap::insert`: `component` is stored under `key`, in place of what was
/// there.
#[verifier::external_body]
pub(crate) fn component_table_insert(
    table: &mut ComponentTable,
    key: (u64, u64),
    component: UntypedComponent,
)
    ensures
        component_table_contents(*final(table)) == component_table_contents(*old(table)).insert(
            key,
            component,
        ),
{
    table.inner.insert(key, component);
}

/// `HashMap::remove`: the component under `key` leaves the table and is
/// returned.
#[verifier::external_body]
pub(crate) fn component_table_remove(table: &mut ComponentTable, key: (u64, u64)) -> (removed:
    Option<UntypedComponent>)
    ensures
        component_table_contents(*final(table)) == component_table_contents(*old(table)).remove(
            key,
        ),
        removed is Some <==> component_table_contents(*old(table)).contains_key(key),
        removed matches Some(component) ==> component == component_table_contents(*old(table))[key],
{
    table.inner.remove(&key)
}

/// The resources of the world by key, held in a
/// `hashbrown::HashMap<u64, Box<dyn Resource>>`.
#[verifier::external_body]
pub struct ResourceTable {
    inner: hashbrown::HashMap<u64, Box<dyn Resource>>,
}

/// The resources a `ResourceTable` holds.
pub uninterp spec fn resource_table_contents(table: ResourceTable) -> Map<u64, Box<dyn Resource>>;

impl View for ResourceTable {
    type V = Map<u64, Box<dyn Resource>>;

    open spec fn view(&self) -> Map<u64, Box<dyn Resource>> {
        resource_table_contents(*self)
    }
}

/// `HashMap::new`: a table without resources.
#[verifier::external_body]
pub(crate) fn resource_table_new() -> (table: ResourceTable)
    ensures
        resource_table_contents(table) =~= Map::empty(),
{
    ResourceTable { inner: hashbrown::HashMap::new() }
}

/// `HashMap::insert`: `resource` is stored under `key`, in place of what was
/// there. The table gains the key and no other, and what it holds under the
/// other keys stays.
#[verifier::external_body]
pub(crate) fn resource_table_insert(table: &mut ResourceTable, key: u64, resource: Box<dyn Resource>)
    ensures
        resource_table_contents(*final(table)) == resource_table_contents(*old(table)).insert(
            key,
            resource,
        ),
        resource_table_contents(*final(table)).dom() == resource_table_contents(
            *old(table),
        ).dom().insert(key),
        resource_table_contents(*final(table))[key] == resource,
        forall|other: u64|
            other != key ==> #[trigger] resource_table_contents(*final(table))[other]
                == resource_table_contents(*old(table))[other],
{
    table.inner.insert(key, resource);
}

/// `HashMap::get`: the resource stored under `key`, if there is one.
#[verifier::external_body]
pub(crate) fn resource_table_get(table: &ResourceTable, key: u64) -> (found: Option<
    &Box<dyn Resource>,
>)
    ensures
        found is Some <==> resource_table_contents(*table).contains_key(key),
        found matches Some(resource) ==> *resource == resource_table_contents(*table)[key],
{
    table.inner.get(&key)
}

/// `HashMap::get_mut`: the resource stored under `key`, if there is one, to
/// be changed in place. What it is changed to is what the table then holds
/// under `key`; nothing else in the table changes, and no key comes or goes.
#[verifier::external_body]
pub(crate) fn resource_table_get_mut(table: &mut ResourceTable, key: u64) -> (found: Option<
    &mut Box<dyn Resource>,
>)
    ensures
        found is Some <==> resource_table_contents(*old(table)).contains_key(key),
        found matches Some(resource) ==> *resource == resource_table_contents(*old(table))[key]
            && resource_table_contents(*final(table)) == resource_table_contents(
            *old(table),
        ).insert(key, *final(resource)),
        found matches Some(resource) ==> resource_table_contents(*final(table))[key] == *final(resource),
        found is None ==> resource_table_contents(*final(table)) == resource_table_contents(
            *old(table),
        ),
        resource_table_contents(*final(table)).dom() == resource_table_contents(*old(table)).dom(),
        forall|other: u64|
            other != key ==> #[trigger] resource_table_contents(*final(table))[other]
                == resource_table_contents(*old(table))[other],
{
    table.inner.get_mut(&key)
}

/// The entries of a lorebook by the hash of their tags, held in a
/// `hashbrown::HashMap<u64, LoreEntry>`.
#[verifier::external_body]
pub struct EntryTable {
    inner: hashbrown::HashMap<u64, LoreEntry>,
}

/// The entries an `EntryTable` holds.
pub uninterp spec fn entry_table_contents(table: EntryTable) -> Map<u64, LoreEntry>;

impl View for EntryTable {
    type V = Map<u64, LoreEntry>;

    open spec fn view(&self) -> Map<u64, LoreEntry> {
        entry_table_contents(*self)
    }
}

/// `HashMap::new`: a table without entries.
#[verifier::external_body]
pub(crate) fn entry_table_new() -> (table: EntryTable)
    ensures
        entry_table_contents(table) =~= Map::empty(),
{
    EntryTable { inner: hashbrown::HashMap::new() }
}

/// `HashMap::get`: the entry stored under `key`, if there is one.
#[verifier::external_body]
pub(crate) fn entry_table_get(table: &EntryTable, key: u64) -> (found: Option<&LoreEntry>)
    ensures
        found is Some <==> entry_table_contents(*table).contains_key(key),
        found matches Some(entry) ==> *entry == entry_table_contents(*table)[key],
{
    table.inner.get(&key)
}

/// `HashMap::insert`: `entry` is stored under `key`, in place of what was
/// there.
#[verifier::external_body]
pub(crate) fn entry_table_insert(table: &mut EntryTable, key: u64, entry: LoreEntry)
    ensures
        entry_table_contents(*final(table)) == entry_table_contents(*old(table)).insert(
            key,
            entry,
        ),
{
    table.inner.insert(key, entry);
}

/// The readers of the registered entry types of a lorebook by the key of
/// the type, held in a `hashbrown::HashMap<u64, Box<dyn LoreReader>>`.
#[verifier::external_body]
pub struct ReaderTable {
    inner: hashbrown::HashMap<u64, Box<dyn LoreReader>>,
}

/// The readers a `ReaderTable` holds.
pub uninterp spec fn reader_table_contents(table: ReaderTable) -> Map<u64, Box<dyn LoreReader>>;

impl View for ReaderTable {
    type V = Map<u64, Box<dyn LoreReader>>;

    open spec fn view(&self) -> Map<u64, Box<dyn LoreReader>> {
        reader_table_contents(*self)
    }
}

/// `HashMap::new`: a table without readers.
#[verifier::external_body]
pub(crate) fn reader_table_new() -> (table: ReaderTable)
    ensures
        reader_table_contents(table) =~= Map::empty(),
{
    ReaderTable { inner: hashbrown::HashMap::new() }
}

/// `HashMap::insert`: `reader` is stored under `key`, in place of what was
/// there. The table gains the key and no other, and what it holds under the
/// other keys stays.
#[verifier::external_body]
pub(crate) fn reader_table_insert(table: &mut ReaderTable, key: u64, reader: Box<dyn LoreReader>)
    ensures
        reader_table_contents(*final(table)).dom() == reader_table_contents(
            *old(table),
        ).dom().insert(key),
        reader_table_contents(*final(table))[key] == reader,
        forall|other: u64|
            other != key ==> #[trigger] reader_table_contents(*final(table))[other]
                == reader_table_contents(*old(table))[other],
{
    table.inner.insert(key, reader);
}

/// `HashMap::get`: the reader stored under `key`, if there is one.
#[verifier::external_body]
pub(crate) fn reader_table_get(table: &ReaderTable, key: u64) -> (found: Option<
    &Box<dyn LoreReader>,
>)
    ensures
        found is Some <==> reader_table_contents(*table).contains_key(key),
        found matches Some(reader) ==> *reader == reader_table_contents(*table)[key],
{
    table.inner.get(&key)
}

/// A set of tags, held in a `hashbrown::HashSet<String>`.
#[verifier::external_body]
pub struct TagSet {
    inner: hashbrown::HashSet<String>,
}

/// The tags a `TagSet` holds, each as its text.
pub uninterp spec fn tag_set_contents(set: TagSet) -> Set<Seq<char>>;

impl View for TagSet {
    type V = Set<Seq<char>>;

    open spec fn view(&self) -> Set<Seq<char>> {
        tag_set_contents(*self)
    }
}

/// `HashSet::new`: a set that holds nothing.
#[verifier::external_body]
pub(crate) fn tag_set_new() -> (set: TagSet)
    ensures
        tag_set_contents(set) == Set::<Seq<char>>::empty(),
{
    TagSet { inner: hashbrown::HashSet::new() }
}

/// `HashSet::insert`: the set gains `tag`; the result tells whether it was
/// new.
#[verifier::external_body]
pub(crate) fn tag_set_insert(set: &mut TagSet, tag: String) -> (fresh: bool)
    ensures
        tag_set_contents(*final(set)) == tag_set_contents(*old(set)).insert(tag@),
        fresh == !tag_set_contents(*old(set)).contains(tag@),
{
    set.inner.insert(tag)
}

/// `HashSet::contains`: whether the set holds `tag`.
#[verifier::external_body]
pub(crate) fn tag_set_contains(set: &TagSet, tag: &str) -> (present: bool)
    ensures
        present == tag_set_contents(*set).contains(tag@),
{
    set.inner.contains(tag)
}

/// `HashSet::iter`, collected: every tag of the set once, in an order that
/// is not specified.
#[verifier::external_body]
pub(crate) fn tag_set_to_vec(set: &TagSet) -> (tags: Vec<String>)
    ensures
        texts_of(tags@).no_duplicates(),
        forall|text: Seq<char>| texts_of(tags@).contains(text) <==> tag_set_contents(*set).contains(text),
{
    set.inner.iter().cloned().collect()
}

/// An index from a tag to a set of identifiers, held in a
/// `hashbrown::HashMap<String, IdSet>`.
#[verifier::external_body]
pub struct TagIndex {
    inner: hashbrown::HashMap<String, IdSet>,
}

/// The entries a `TagIndex` holds, each under the text of its tag.
pub uninterp spec fn tag_index_contents(index: TagIndex) -> Map<Seq<char>, IdSet>;

impl View for TagIndex {
    type V = Map<Seq<char>, IdSet>;

    open spec fn view(&self) -> Map<Seq<char>, IdSet> {
        tag_index_contents(*self)
    }
}

/// `HashMap::new`: an index without entries.
#[verifier::external_body]
pub(crate) fn tag_index_new() -> (index: TagIndex)
    ensures
        tag_index_contents(index) =~= Map::empty(),
{
    TagIndex { inner: hashbrown::HashMap::new() }
}

/// `HashMap::get`: the set stored under `tag`, if there is one.
#[verifier::external_body]
pub(crate) fn tag_index_get<'a>(index: &'a TagIndex, tag: &str) -> (found: Option<&'a IdSet>)
    ensures
        found is Some <==> tag_index_contents(*index).contains_key(tag@),
        found matches Some(set) ==> *set == tag_index_contents(*index)[tag@],
{
    index.inner.get(tag)
}

/// `HashMap::insert`: `set` is stored under `tag`, in place of what was
/// there.
#[verifier::external_body]
pub(crate) fn tag_index_insert(index: &mut TagIndex, tag: String, set: IdSet)
    ensures
        tag_index_contents(*final(index)) == tag_index_contents(*old(index)).insert(tag@, set),
{
    index.inner.insert(tag, set);
}

/// `HashMap::remove`: the entry under `tag` leaves the index and is
/// returned.
#[verifier::external_body]
pub(crate) fn tag_index_remove(index: &mut TagIndex, tag: &str) -> (removed: Option<IdSet>)
    ensures
        tag_index_contents(*final(index)) == tag_index_contents(*old(index)).remove(tag@),
        removed is Some <==> tag_index_contents(*old(index)).contains_key(tag@),
        removed matches Some(set) ==> set == tag_index_contents(*old(index))[tag@],
{
    index.inner.remove(tag)
}

} // verus!
