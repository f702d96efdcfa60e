//! The lorebook: a read-only store of tagged records, looked up by their
//! tags.
//!
//! A record is filed under the hash of its set of tags, and listed under
//! each of its tags. The body of a record is kept as the bytes it was read
//! from; the typed entry is made from them when it is asked for.

use vstd::prelude::*;
use std::collections::HashMap;
use crate::hashing::{hash_of_name, string_hash};
use crate::json::{Json, JsonView};
use crate::resource::{
    resource_key_of_name, RequestView, Resource, ResourceKey, ResourceRequest, ResourceState,
};
use crate::store::{held_by_all, holds};
use crate::tables::{
    entry_table_get, entry_table_insert, entry_table_new, id_set_insert, id_set_new,
    reader_table_get, reader_table_insert, reader_table_new, tag_index_get, tag_index_insert,
    tag_index_new, tag_index_remove, tag_set_contains, tag_set_insert, tag_set_new,
    tag_set_to_vec, EntryTable, IdSet, ReaderTable, TagIndex, TagSet,
};

verus! {

/// A type of entries of a lorebook.
///
/// An entry type has a canonical name, under which it is registered, and a
/// way to read an entry from the body of a record.
pub trait LoreType: Sized {
    /// The name the type is registered under. A type that does not say what
    /// it is leaves it open.
    open spec fn canonical_name() -> Seq<char> {
        arbitrary()
    }

    /// The entry that the body of a record stands for, if it stands for one.
    /// A type that does not say what it is leaves it open.
    open spec fn reading(body: Seq<u8>) -> Option<Self> {
        arbitrary()
    }

    fn registered_name() -> (name: &'static str)
        ensures
            name@ == Self::canonical_name(),
    ;

    fn read(body: &Vec<u8>) -> (entry: Option<Self>)
        ensures
            entry == Self::reading(body@),
    ;
}

/// The key under which the entry type `T` is registered.
pub open spec fn lore_key_of<T: LoreType>() -> u64 {
    hash_of_name(T::canonical_name())
}

/// How the entries of a registered type are read: what a builder keeps of
/// an entry type, to turn down records whose body the type cannot read.
pub trait LoreReader {
    /// Whether the body of a record reads as an entry of the type. A reader
    /// that does not say leaves it open.
    open spec fn readable(&self, body: Seq<u8>) -> bool {
        arbitrary()
    }

    fn reads(&self, body: &Vec<u8>) -> (ok: bool)
        ensures
            ok == self.readable(body@),
    ;
}

/// The reader of the entry type `T`.
pub struct ReaderOf<T: LoreType> {
    sample: Option<T>,
}

impl<T: LoreType> ReaderOf<T> {
    pub fn new() -> (reader: Self) {
        ReaderOf { sample: None }
    }
}

impl<T: LoreType> LoreReader for ReaderOf<T> {
    open spec fn readable(&self, body: Seq<u8>) -> bool {
        T::reading(body) is Some
    }

    fn reads(&self, body: &Vec<u8>) -> (ok: bool) {
        T::read(body).is_some()
    }
}

/// The hash of a list of tags: the sum of the hashes of the tags, modulo
/// 2^64.
pub open spec fn list_hash(texts: Seq<Seq<char>>) -> u64
    decreases texts.len(),
{
    if texts.len() == 0 {
        0
    } else {
        list_hash(texts.drop_last()).wrapping_add(hash_of_name(texts.last()))
    }
}

/// The hash of a set of tags: the sum of the hashes of the tags, modulo
/// 2^64.
pub open spec fn tags_hash(texts: Set<Seq<char>>) -> u64 {
    list_hash(texts.to_seq())
}

/// The texts of a list of strings.
pub open spec fn texts_of(strings: Seq<String>) -> Seq<Seq<char>> {
    Seq::new(strings.len(), |i: int| strings[i]@)
}

/// A set of tags.
pub struct Tags {
    tags: TagSet,
}

impl Tags {
    /// The tags.
    pub closed spec fn texts(&self) -> Set<Seq<char>> {
        self.tags@
    }

    pub fn new() -> (tags: Self)
        ensures
            tags.texts() == Set::<Seq<char>>::empty(),
    {
        Tags { tags: tag_set_new() }
    }

    /// Whether `s` is one of the tags.
    pub fn has(&self, s: &str) -> (present: bool)
        ensures
            present == self.texts().contains(s@),
    {
        tag_set_contains(&self.tags, s)
    }

    /// The set with the tag `s` as well.
    pub fn with(self, s: &str) -> (tags: Self)
        ensures
            tags.texts() == self.texts().insert(s@),
    {
        let mut tags = self;
        tag_set_insert(&mut tags.tags, s.to_owned());
        tags
    }

    /// The set with each of the tags `s` as well.
    pub fn with_all(self, s: Vec<String>) -> (tags: Self)
        ensures
            tags.texts() == self.texts().union(texts_of(s@).to_set()),
    {
        let mut tags = self;
        let ghost more = texts_of(s@);
        let mut i: usize = 0;
        assert(tags.texts() =~= self.texts().union(more.subrange(0, 0).to_set()));
        while i < s.len()
            invariant
                i <= s.len(),
                more == texts_of(s@),
                tags.texts() == self.texts().union(more.subrange(0, i as int).to_set()),
            decreases s.len() - i,
        {
            let ghost before = tags.texts();
            tags = tags.with(s[i].as_str());
            proof {
                let seen = more.subrange(0, i as int);
                let next = more.subrange(0, i + 1);
                assert(more[i as int] == s[i as int]@);
                lemma_one_more(more, i as int);
                assert(tags.texts() =~= self.texts().union(next.to_set())) by {
                    assert forall|text: Seq<char>|
                        next.to_set().contains(text) == (seen.to_set().contains(text) || text
                            == more[i as int]) by {
                        assert(next.contains(text) == (seen.contains(text) || text
                            == more[i as int]));
                    }
                }
            }
            i += 1;
        }
        assert(more.subrange(0, i as int) =~= more);
        tags
    }

    /// The tags, each once, in an order that is not specified.
    pub fn read(&self) -> (tags: Vec<String>)
        ensures
            texts_of(tags@).no_duplicates(),
            texts_of(tags@).to_set() == self.texts(),
    {
        let tags = tag_set_to_vec(&self.tags);
        assert(texts_of(tags@).to_set() =~= self.texts());
        tags
    }

    /// The hash of the set.
    pub fn hash(&self) -> (hash: u64)
        ensures
            hash == tags_hash(self.texts()),
    {
        let tags = self.read();
        let ghost texts = texts_of(tags@);
        let mut hash: u64 = 0;
        let mut i: usize = 0;
        assert(texts.subrange(0, 0) =~= Seq::<Seq<char>>::empty());
        while i < tags.len()
            invariant
                i <= tags.len(),
                texts == texts_of(tags@),
                hash == list_hash(texts.subrange(0, i as int)),
            decreases tags.len() - i,
        {
            proof {
                let next = texts.subrange(0, i + 1);
                assert(next.drop_last() =~= texts.subrange(0, i as int));
                assert(next.last() == tags[i as int]@);
            }
            hash = hash.wrapping_add(string_hash(tags[i].as_str()));
            i += 1;
        }
        proof {
            assert(texts.subrange(0, i as int) =~= texts);
            lemma_list_hash(texts);
        }
        hash
    }
}

impl Default for Tags {
    fn default() -> (tags: Self)
        ensures
            tags.texts() == Set::<Seq<char>>::empty(),
    {
        Self::new()
    }
}

#[derive(Debug)]
pub enum LoreError {
    /// No entry is filed under the tags.
    EntryNotFound(String),
    /// A record names a type that is not registered.
    TypeNotRegistered(String),
    /// An entry is filed under the tags already.
    EntryAlreadyExists(String),
    /// An entry is not of the type asked for.
    InvalidLoreEntry(String),
    /// A record has no tags.
    LoreMissingTag(String),
    /// A record could not be read from where it is kept.
    IOError(String),
    /// A record is not well-formed.
    JSONError(String),
}

/// What an entry is, as plain values.
pub struct EntryView {
    pub kind: u64,
    pub body: Seq<u8>,
}

/// An entry of a lorebook: the key of its type and the body of its record.
#[derive(Debug)]
pub struct LoreEntry {
    pub kind: u64,
    pub body: Vec<u8>,
}

impl View for LoreEntry {
    type V = EntryView;

    open spec fn view(&self) -> EntryView {
        EntryView { kind: self.kind, body: self.body@ }
    }
}

impl EntryView {
    /// The typed entry, if the entry is of type `T` and its body reads as
    /// one.
    pub open spec fn typed<T: LoreType>(self) -> Option<T> {
        if self.kind == lore_key_of::<T>() {
            T::reading(self.body)
        } else {
            None
        }
    }
}

impl LoreEntry {
    /// The typed entry, if the entry is of type `T` and its body reads as
    /// one.
    pub fn get<T: LoreType>(&self) -> (entry: Option<T>)
        ensures
            entry == self@.typed::<T>(),
    {
        if self.kind == string_hash(T::registered_name()) {
            T::read(&self.body)
        } else {
            None
        }
    }
}

/// A record as it is handed to the builder: its tags, the name of its type,
/// and its body.
pub struct LoreRecord {
    pub tags: Vec<String>,
    pub tp: String,
    pub body: Vec<u8>,
}

/// What a lorebook holds, as plain values: the entries by the hash of their
/// tags, and for each tag the entries that carry it.
pub struct BookView {
    pub entries: Map<u64, EntryView>,
    pub tagged: Map<Seq<char>, Set<u64>>,
}

impl BookView {
    /// The entries that carry the tag.
    pub open spec fn carriers(self, tag: Seq<char>) -> Set<u64> {
        if self.tagged.contains_key(tag) {
            self.tagged[tag]
        } else {
            Set::empty()
        }
    }

    /// The book with one more entry, filed under `hash` and listed under
    /// each of the tags `texts`.
    pub open spec fn inserted(self, hash: u64, entry: EntryView, texts: Set<Seq<char>>) -> BookView {
        BookView {
            entries: self.entries.insert(hash, entry),
            tagged: Map::new(
                |tag: Seq<char>| self.tagged.contains_key(tag) || texts.contains(tag),
                |tag: Seq<char>|
                    if texts.contains(tag) {
                        self.carriers(tag).insert(hash)
                    } else {
                        self.carriers(tag)
                    },
            ),
        }
    }

    /// The entries that carry each of the tags `texts`; none if there is no
    /// tag.
    pub open spec fn carrying_all(self, texts: Set<Seq<char>>) -> Set<u64> {
        Set::new(
            |hash: u64|
                (exists|tag: Seq<char>| texts.contains(tag)) && forall|tag: Seq<char>|
                    texts.contains(tag) ==> #[trigger] self.carriers(tag).contains(hash),
        )
    }
}

/// Whether the index lists `member` under `tag`.
spec fn lists(index: TagIndex, tag: Seq<char>, member: u64) -> bool {
    index@.contains_key(tag) && index@[tag]@.contains(member)
}

/// Whether every set of the index is finite and holds something.
spec fn no_empty_tag(index: TagIndex) -> bool {
    forall|tag: Seq<char>| #[trigger]
        index@.contains_key(tag) ==> index@[tag]@.finite() && index@[tag]@.len() > 0
}

/// Lists `member` under `tag`, with a new entry if there is none.
fn tag_add(index: &mut TagIndex, tag: &str, member: u64)
    requires
        no_empty_tag(*old(index)),
    ensures
        no_empty_tag(*final(index)),
        forall|t: Seq<char>, m: u64| #[trigger]
            lists(*final(index), t, m) == (lists(*old(index), t, m) || (t == tag@ && m == member)),
        forall|t: Seq<char>| #[trigger]
            final(index)@.contains_key(t) == (old(index)@.contains_key(t) || t == tag@),
{
    let mut set = match tag_index_remove(index, tag) {
        Some(set) => set,
        None => id_set_new(),
    };
    assert(set@.finite()) by {
        if old(index)@.contains_key(tag@) {
            assert(set == old(index)@[tag@]);
        }
    }
    id_set_insert(&mut set, member);
    tag_index_insert(index, tag.to_owned(), set);
    proof {
        assert(set@.contains(member));
        assert(set@.len() > 0) by {
            if set@.len() == 0 {
                set@.lemma_len0_is_empty();
            }
        }
    }
}

pub struct Lorebook {
    entries: EntryTable,
    tables: TagIndex,
}

impl View for Lorebook {
    type V = BookView;

    closed spec fn view(&self) -> BookView {
        BookView {
            entries: Map::new(
                |hash: u64| self.entries@.contains_key(hash),
                |hash: u64| self.entries@[hash]@,
            ),
            tagged: Map::new(
                |tag: Seq<char>| self.tables@.contains_key(tag),
                |tag: Seq<char>| self.tables@[tag]@,
            ),
        }
    }
}

impl Lorebook {
    /// The invariant of the book: no tag is listed without an entry.
    pub closed spec fn wf(&self) -> bool {
        no_empty_tag(self.tables)
    }

    /// The entry filed under the tags, as an entry of type `T`.
    pub fn get<T: LoreType>(&self, tags: Tags) -> (found: Result<T, LoreError>)
        ensures
            found is Ok <==> self@.entries.contains_key(tags_hash(tags.texts()))
                && self@.entries[tags_hash(tags.texts())].typed::<T>() is Some,
            found matches Ok(entry) ==> Some(entry) == self@.entries[tags_hash(
                tags.texts(),
            )].typed::<T>(),
            found matches Err(error) ==> if self@.entries.contains_key(tags_hash(tags.texts())) {
                error matches LoreError::InvalidLoreEntry(text) && text@
                    == "Could not downcast entry"@
            } else {
                error matches LoreError::EntryNotFound(text) && text@
                    == "Could not find entry with tags"@
            },
    {
        match entry_table_get(&self.entries, tags.hash()) {
            Some(entry) => match entry.get::<T>() {
                Some(typed) => Ok(typed),
                None => Err(LoreError::InvalidLoreEntry("Could not downcast entry".to_owned())),
            },
            None => Err(LoreError::EntryNotFound("Could not find entry with tags".to_owned())),
        }
    }

    /// The hashes of the entries that carry each of the tags, each once.
    fn hashes_with(&self, tag: &Tags) -> (hashes: Vec<u64>)
        ensures
            hashes@.no_duplicates(),
            forall|hash: u64|
                hashes@.contains(hash) <==> self@.carrying_all(tag.texts()).contains(hash),
    {
        let tags = tag.read();
        let ghost texts = texts_of(tags@);
        if tags.len() == 0 {
            proof {
                assert forall|text: Seq<char>| !tag.texts().contains(text) by {
                    if tag.texts().contains(text) {
                        assert(texts.to_set().contains(text));
                        assert(texts.contains(text));
                    }
                }
            }
            return Vec::new();
        }
        let mut sets: Vec<Option<&IdSet>> = Vec::new();
        let mut i: usize = 0;
        while i < tags.len()
            invariant
                i <= tags.len(),
                texts == texts_of(tags@),
                sets.len() == i,
                forall|j: int, hash: u64|
                    0 <= j < i ==> #[trigger] holds(sets[j], hash) == lists(
                        self.tables,
                        texts[j],
                        hash,
                    ),
            decreases tags.len() - i,
        {
            assert(texts[i as int] == tags[i as int]@);
            sets.push(tag_index_get(&self.tables, tags[i].as_str()));
            i += 1;
        }
        let hashes = held_by_all(&sets);
        proof {
            assert forall|hash: u64|
                hashes@.contains(hash) <==> self@.carrying_all(tag.texts()).contains(hash) by {
                if hashes@.contains(hash) {
                    assert(texts.contains(texts[0]));
                    assert(texts.to_set().contains(texts[0]));
                    assert forall|text: Seq<char>| tag.texts().contains(text) implies (
                    #[trigger] self@.carriers(text)).contains(hash) by {
                        assert(texts.to_set().contains(text));
                        assert(texts.contains(text));
                        let j = choose|j: int| 0 <= j < texts.len() && texts[j] == text;
                        assert(holds(sets[j], hash));
                    }
                }
                if self@.carrying_all(tag.texts()).contains(hash) {
                    assert forall|j: int| 0 <= j < sets.len() implies holds(
                        #[trigger] sets[j],
                        hash,
                    ) by {
                        assert(texts.contains(texts[j]));
                        assert(texts.to_set().contains(texts[j]));
                        assert(self@.carriers(texts[j]).contains(hash));
                        assert(lists(self.tables, texts[j], hash));
                    }
                }
            }
        }
        hashes
    }

    /// The entries of type `T` that carry each of the tags, each once, in an
    /// order that is not specified. Entries of another type are passed over.
    pub fn get_all_with_tag<T: LoreType>(&self, tag: &Tags) -> (found: Result<Vec<T>, LoreError>)
        ensures
            found matches Ok(entries) && exists|hashes: Seq<u64>|
                {
                    &&& hashes.no_duplicates()
                    &&& #[trigger] hashes.len() == entries.len()
                    &&& forall|hash: u64|
                        hashes.contains(hash) <==> self@.carrying_all(tag.texts()).contains(hash)
                            && self@.entries.contains_key(hash)
                            && self@.entries[hash].typed::<T>() is Some
                    &&& forall|i: int|
                        0 <= i < hashes.len() ==> Some(entries[i]) == self@.entries[hashes[i]].typed::<
                            T,
                        >()
                },
    {
        let candidates = self.hashes_with(tag);
        let mut entries: Vec<T> = Vec::new();
        let ghost mut hashes: Seq<u64> = Seq::empty();
        let mut i: usize = 0;
        while i < candidates.len()
            invariant
                i <= candidates.len(),
                candidates@.no_duplicates(),
                forall|hash: u64|
                    candidates@.contains(hash) <==> self@.carrying_all(tag.texts()).contains(hash),
                hashes.no_duplicates(),
                hashes.len() == entries.len(),
                forall|hash: u64|
                    hashes.contains(hash) <==> (exists|j: int|
                        0 <= j < i && candidates[j] == hash) && self@.entries.contains_key(hash)
                        && self@.entries[hash].typed::<T>() is Some,
                forall|k: int|
                    0 <= k < hashes.len() ==> Some(entries[k]) == self@.entries[hashes[k]].typed::<
                        T,
                    >(),
            decreases candidates.len() - i,
        {
            let hash = candidates[i];
            let ghost before = hashes;
            let typed = match entry_table_get(&self.entries, hash) {
                Some(entry) => entry.get::<T>(),
                None => None,
            };
            match typed {
                Some(entry) => {
                    entries.push(entry);
                    proof {
                        assert(!before.contains(hash)) by {
                            if before.contains(hash) {
                                let j = choose|j: int| 0 <= j < i && candidates[j] == hash;
                                assert(candidates[j] == candidates[i as int]);
                            }
                        }
                        hashes = before.push(hash);
                        assert(hashes[before.len() as int] == hash);
                        assert forall|k: int| 0 <= k < before.len() implies hashes[k]
                            == before[k] by {}
                    }
                },
                None => {},
            }
            proof {
                assert forall|other: u64|
                    hashes.contains(other) <==> (exists|j: int|
                        0 <= j < i + 1 && candidates[j] == other) && self@.entries.contains_key(
                        other,
                    ) && self@.entries[other].typed::<T>() is Some by {
                    if hashes.contains(other) {
                        if before.contains(other) {
                            let j = choose|j: int| 0 <= j < i && candidates[j] == other;
                            assert(0 <= j < i + 1);
                        } else {
                            let k = choose|k: int| 0 <= k < hashes.len() && hashes[k] == other;
                            assert(k == before.len());
                            assert(candidates[i as int] == other);
                        }
                    }
                    if (exists|j: int| 0 <= j < i + 1 && candidates[j] == other)
                        && self@.entries.contains_key(other) && self@.entries[other].typed::<T>()
                        is Some {
                        let j = choose|j: int| 0 <= j < i + 1 && candidates[j] == other;
                        if j < i {
                            assert(before.contains(other));
                            let k = choose|k: int| 0 <= k < before.len() && before[k] == other;
                            assert(hashes[k] == other);
                        } else {
                            assert(hashes[hashes.len() - 1] == other);
                        }
                    }
                }
            }
            i += 1;
        }
        proof {
            assert forall|hash: u64|
                hashes.contains(hash) <==> self@.carrying_all(tag.texts()).contains(hash)
                    && self@.entries.contains_key(hash) && self@.entries[hash].typed::<T>()
                    is Some by {
                if self@.carrying_all(tag.texts()).contains(hash) {
                    assert(candidates@.contains(hash));
                    let j = choose|j: int| 0 <= j < candidates.len() && candidates[j] == hash;
                    assert(0 <= j < i);
                }
                if hashes.contains(hash) {
                    let j = choose|j: int| 0 <= j < i && candidates[j] == hash;
                    assert(candidates@.contains(hash));
                }
            }
        }
        Ok(entries)
    }
}

/// The key under which the lorebook is registered as a resource.
pub open spec fn lorebook_key() -> ResourceKey {
    resource_key_of_name("melon::lore::Lorebook"@)
}

/// What a lorebook that holds `book` answers to `request`: the length of the
/// body of the entry filed under the hash that is the first argument, or
/// nothing if there is no such entry.
pub open spec fn lore_answer(book: BookView, request: RequestView) -> Seq<i64> {
    if request.arguments.len() > 0 && book.entries.contains_key(request.arguments[0] as u64) {
        seq![book.entries[request.arguments[0] as u64].body.len() as i64]
    } else {
        Seq::<i64>::empty()
    }
}

impl Resource for Lorebook {
    open spec fn registered_key(&self) -> ResourceKey {
        lorebook_key()
    }

    open spec fn state(&self) -> ResourceState {
        ResourceState::Lore(self@)
    }

    open spec fn sound(&self) -> bool {
        self.wf()
    }

    /// A lorebook is read-only: a write leaves it as it is.
    open spec fn after(&self, state: ResourceState, request: RequestView) -> ResourceState {
        state
    }

    open spec fn answers(&self, state: ResourceState, request: RequestView, answer: Seq<i64>) -> bool {
        match state {
            ResourceState::Lore(book) => answer == lore_answer(book, request),
            _ => true,
        }
    }

    fn key(&self) -> (key: ResourceKey) {
        crate::resource::get_resource_id("melon::lore::Lorebook")
    }

    /// A lorebook is read-only: a write leaves it as it is.
    fn write(&mut self, request: &ResourceRequest)
        ensures
            *final(self) == *old(self),
    {
    }

    /// A lorebook answers a request with the length of the body of the
    /// entry filed under the hash that is the first argument, or with
    /// nothing if there is no such entry.
    fn read(&self, request: &ResourceRequest) -> (answer: Vec<i64>)
        ensures
            answer@ == lore_answer(self@, request@),
    {
        let mut answer: Vec<i64> = Vec::new();
        if request.arguments.len() > 0 {
            let hash = #[verifier::truncate] (request.arguments[0] as u64);
            match entry_table_get(&self.entries, hash) {
                Some(entry) => {
                    answer.push(#[verifier::truncate] (entry.body.len() as i64));
                },
                None => {},
            }
        }
        answer
    }
}

pub struct LorebookBuilder {
    lorebook: Lorebook,
    types: ReaderTable,
}

/// `format!`: the message that an entry is filed under a hash already,
/// which names the hash.
#[verifier::external_body]
fn exists_message(hash: u64) -> (message: String) {
    format!("Entry with hash {} already exists", hash)
}

impl LorebookBuilder {
    /// The book as built so far.
    pub closed spec fn book(&self) -> Lorebook {
        self.lorebook
    }

    /// The keys of the registered entry types.
    pub closed spec fn types(&self) -> Set<u64> {
        self.types@.dom()
    }

    /// Whether the type registered under `kind` can read `body`.
    pub closed spec fn reads(&self, kind: u64, body: Seq<u8>) -> bool {
        self.types@[kind].readable(body)
    }

    pub fn new() -> (builder: Self)
        ensures
            builder.book().wf(),
            builder.book()@.entries == Map::<u64, EntryView>::empty(),
            builder.book()@.tagged == Map::<Seq<char>, Set<u64>>::empty(),
            builder.types() == Set::<u64>::empty(),
    {
        let builder = LorebookBuilder {
            lorebook: Lorebook { entries: entry_table_new(), tables: tag_index_new() },
            types: reader_table_new(),
        };
        assert(builder.types() =~= Set::<u64>::empty());
        assert(builder.book()@.entries =~= Map::<u64, EntryView>::empty());
        assert(builder.book()@.tagged =~= Map::<Seq<char>, Set<u64>>::empty());
        builder
    }

    /// Registers the entry type `T`, in place of any type that was
    /// registered under its key. The other types read as they did.
    pub fn register<T: LoreType + 'static>(self) -> (builder: Self)
        ensures
            builder.types() == self.types().insert(lore_key_of::<T>()),
            forall|body: Seq<u8>| #[trigger]
                builder.reads(lore_key_of::<T>(), body) == (T::reading(body) is Some),
            forall|kind: u64, body: Seq<u8>|
                kind != lore_key_of::<T>() ==> #[trigger] builder.reads(kind, body) == self.reads(
                    kind,
                    body,
                ),
            builder.book() == self.book(),
    {
        let mut builder = self;
        reader_table_insert(
            &mut builder.types,
            string_hash(T::registered_name()),
            Box::new(ReaderOf::<T>::new()),
        );
        builder
    }

    /// Files `entry` under the hash of `tags` and lists it under each of the
    /// tags. An entry under tags that an entry is filed under already is
    /// turned down, and the book stays as it is.
    pub fn insert_lorebook_entry(&mut self, entry: LoreEntry, tags: &Tags) -> (outcome: Result<
        (),
        LoreError,
    >)
        requires
            old(self).book().wf(),
        ensures
            final(self).book().wf(),
            final(self).types() == old(self).types(),
            forall|kind: u64, body: Seq<u8>| #[trigger]
                final(self).reads(kind, body) == old(self).reads(kind, body),
            outcome is Ok <==> !old(self).book()@.entries.contains_key(tags_hash(tags.texts())),
            outcome is Ok ==> final(self).book()@ == old(self).book()@.inserted(
                tags_hash(tags.texts()),
                entry@,
                tags.texts(),
            ),
            outcome matches Err(error) ==> error is EntryAlreadyExists && final(self).book()@
                == old(self).book()@,
    {
        let hash = tags.hash();
        if entry_table_get(&self.lorebook.entries, hash).is_some() {
            return Err(LoreError::EntryAlreadyExists(exists_message(hash)));
        }
        let list = tags.read();
        let ghost texts = texts_of(list@);
        let ghost view = entry@;
        let ghost start = self.lorebook@;
        let mut i: usize = 0;
        while i < list.len()
            invariant
                i <= list.len(),
                texts == texts_of(list@),
                no_empty_tag(self.lorebook.tables),
                self.lorebook.entries == old(self).lorebook.entries,
                self.types == old(self).types,
                start == old(self).lorebook@,
                forall|tag: Seq<char>|
                    self.lorebook@.carriers(tag) == if texts.subrange(0, i as int).contains(tag) {
                        start.carriers(tag).insert(hash)
                    } else {
                        start.carriers(tag)
                    },
            decreases list.len() - i,
        {
            let ghost key = texts[i as int];
            let ghost before = self.lorebook@;
            let ghost before_tables = self.lorebook.tables;
            assert(key == list[i as int]@);
            tag_add(&mut self.lorebook.tables, list[i].as_str(), hash);
            proof {
                let seen = texts.subrange(0, i as int);
                let next = texts.subrange(0, i + 1);
                lemma_one_more(texts, i as int);
                assert forall|other: Seq<char>|
                    self.lorebook@.carriers(other) == if next.contains(other) {
                        start.carriers(other).insert(hash)
                    } else {
                        start.carriers(other)
                    } by {
                    let now = self.lorebook@.carriers(other);
                    let then = before.carriers(other);
                    assert(next.contains(other) == (seen.contains(other) || other == key));
                    assert forall|member: u64| #[trigger]
                        now.contains(member) == (then.contains(member) || (other == key && member
                            == hash)) by {
                        assert(lists(self.lorebook.tables, other, member) == (lists(
                            before_tables,
                            other,
                            member,
                        ) || (other == key && member == hash)));
                        assert(now.contains(member) == lists(self.lorebook.tables, other, member));
                        assert(then.contains(member) == lists(before_tables, other, member));
                    }
                    if other == key {
                        assert(now =~= then.insert(hash));
                    } else {
                        assert(now =~= then);
                    }
                    assert(before.carriers(other) == if seen.contains(other) {
                        start.carriers(other).insert(hash)
                    } else {
                        start.carriers(other)
                    });
                    if other == key {
                        assert(start.carriers(other).insert(hash).insert(hash)
                            =~= start.carriers(other).insert(hash));
                    }
                }
            }
            i += 1;
        }
        let ghost listed = self.lorebook@;
        entry_table_insert(&mut self.lorebook.entries, hash, entry);
        proof {
            assert(texts.subrange(0, i as int) =~= texts);
            assert forall|tag: Seq<char>| texts.contains(tag) == tags.texts().contains(tag) by {
                assert(texts.to_set().contains(tag) == texts.contains(tag));
            }
            let wanted = start.inserted(hash, view, tags.texts());
            let got = self.lorebook@;
            assert(got.tagged =~= listed.tagged);
            assert forall|tag: Seq<char>| got.carriers(tag) == listed.carriers(tag) by {}
            assert(got.entries =~= wanted.entries);
            assert forall|tag: Seq<char>|
                got.tagged.contains_key(tag) == wanted.tagged.contains_key(tag) by {
                assert(got.carriers(tag) == if tags.texts().contains(tag) {
                    start.carriers(tag).insert(hash)
                } else {
                    start.carriers(tag)
                });
                if got.tagged.contains_key(tag) {
                    assert(self.lorebook.tables@[tag]@.len() > 0);
                    if !start.tagged.contains_key(tag) && !tags.texts().contains(tag) {
                        assert(got.carriers(tag) =~= Set::<u64>::empty());
                    }
                } else {
                    if tags.texts().contains(tag) {
                        assert(got.carriers(tag).contains(hash));
                    }
                    if start.tagged.contains_key(tag) {
                        assert(old(self).lorebook.tables@.contains_key(tag));
                        let set = old(self).lorebook.tables@[tag]@;
                        assert(set.len() > 0);
                        assert(got.carriers(tag) =~= Set::<u64>::empty());
                        if !tags.texts().contains(tag) {
                            assert(set =~= Set::<u64>::empty());
                        }
                    }
                }
            }
            assert forall|tag: Seq<char>| #[trigger] got.tagged.contains_key(tag) implies got.tagged[tag]
                == wanted.tagged[tag] by {
                assert(got.carriers(tag) == if tags.texts().contains(tag) {
                    start.carriers(tag).insert(hash)
                } else {
                    start.carriers(tag)
                });
            }
            assert(got.tagged =~= wanted.tagged);
        }
        Ok(())
    }
}

impl Default for LorebookBuilder {
    fn default() -> (builder: Self)
        ensures
            builder.book().wf(),
            builder.types() == Set::<u64>::empty(),
    {
        Self::new()
    }
}

/// What a record is, as plain values.
pub struct RecordView {
    pub tags: Seq<Seq<char>>,
    pub tp: Seq<char>,
    pub body: Seq<u8>,
}

impl View for LoreRecord {
    type V = RecordView;

    open spec fn view(&self) -> RecordView {
        RecordView { tags: texts_of(self.tags@), tp: self.tp@, body: self.body@ }
    }
}

/// The records of a sequence, as plain values.
pub open spec fn record_views(records: Seq<LoreRecord>) -> Seq<RecordView> {
    Seq::new(records.len(), |i: int| records[i]@)
}

impl RecordView {
    /// The tags of the record.
    pub open spec fn texts(self) -> Set<Seq<char>> {
        self.tags.to_set()
    }

    /// The hash under which the record is filed.
    pub open spec fn hash(self) -> u64 {
        tags_hash(self.texts())
    }

    /// The entry that the record becomes.
    pub open spec fn entry(self) -> EntryView {
        EntryView { kind: hash_of_name(self.tp), body: self.body }
    }
}

/// The book with the records filed, one after the other.
pub open spec fn filed_all(book: BookView, records: Seq<RecordView>) -> BookView
    decreases records.len(),
{
    if records.len() == 0 {
        book
    } else {
        filed_all(book, records.drop_last()).inserted(
            records.last().hash(),
            records.last().entry(),
            records.last().texts(),
        )
    }
}

impl LorebookBuilder {
    /// Whether the record can be filed in `book`: its type is registered and
    /// can read its body, and no entry is filed under its tags.
    pub open spec fn fits(&self, book: BookView, record: RecordView) -> bool {
        &&& self.types().contains(hash_of_name(record.tp))
        &&& self.reads(hash_of_name(record.tp), record.body)
        &&& !book.entries.contains_key(record.hash())
    }

    /// Whether each record can be filed in the book that holds the records
    /// before it.
    pub open spec fn all_fit(&self, book: BookView, records: Seq<RecordView>) -> bool
        decreases records.len(),
    {
        records.len() == 0 || (self.all_fit(book, records.drop_last()) && self.fits(
            filed_all(book, records.drop_last()),
            records.last(),
        ))
    }

    /// Records of which one does not fit do not all fit.
    proof fn lemma_misfit(&self, book: BookView, records: Seq<RecordView>, at: int)
        requires
            0 <= at < records.len(),
            !self.fits(filed_all(book, records.subrange(0, at)), records[at]),
        ensures
            !self.all_fit(book, records),
        decreases records.len(),
    {
        if at == records.len() - 1 {
            assert(records.subrange(0, at) =~= records.drop_last());
        } else {
            let front = records.drop_last();
            assert(front.subrange(0, at) =~= records.subrange(0, at));
            assert(front[at] == records[at]);
            self.lemma_misfit(book, front, at);
        }
    }
}

impl LorebookBuilder {
    /// Builds the book from the records: each is filed under its tags as an
    /// entry of the type it names. The first record that names a type that
    /// is not registered, whose body its type cannot read, or whose tags an
    /// entry is filed under already, ends the build with an error.
    pub fn build(self, records: Vec<LoreRecord>) -> (built: Result<Lorebook, LoreError>)
        requires
            self.book().wf(),
        ensures
            built is Ok <==> self.all_fit(self.book()@, record_views(records@)),
            built matches Ok(book) ==> book.wf() && book@ == filed_all(
                self.book()@,
                record_views(records@),
            ),
            built matches Err(error) ==> exists|i: int|
                #![trigger record_views(records@)[i]]
                {
                    &&& 0 <= i < records.len()
                    &&& self.all_fit(self.book()@, record_views(records@).subrange(0, i))
                    &&& if !self.types().contains(hash_of_name(record_views(records@)[i].tp)) {
                        error matches LoreError::TypeNotRegistered(text) && text@ == "type"@
                    } else if !self.reads(
                        hash_of_name(record_views(records@)[i].tp),
                        record_views(records@)[i].body,
                    ) {
                        error matches LoreError::InvalidLoreEntry(text) && text@
                            == "Could not read entry"@
                    } else {
                        error is EntryAlreadyExists && filed_all(
                            self.book()@,
                            record_views(records@).subrange(0, i),
                        ).entries.contains_key(record_views(records@)[i].hash())
                    }
                },
    {
        let mut builder = self;
        let ghost views = record_views(records@);
        let ghost start = self.book()@;
        let mut i: usize = 0;
        assert(views.subrange(0, 0) =~= Seq::<RecordView>::empty());
        while i < records.len()
            invariant
                i <= records.len(),
                views == record_views(records@),
                start == self.book()@,
                builder.types() == self.types(),
                forall|kind: u64, body: Seq<u8>| #[trigger]
                    builder.reads(kind, body) == self.reads(kind, body),
                builder.book().wf(),
                self.all_fit(start, views.subrange(0, i as int)),
                builder.book()@ == filed_all(start, views.subrange(0, i as int)),
            decreases records.len() - i,
        {
            let record = &records[i];
            proof {
                let next = views.subrange(0, i + 1);
                assert(next.drop_last() =~= views.subrange(0, i as int));
                assert(next.last() == record@);
                assert(views[i as int] == record@);
            }
            let kind = string_hash(record.tp.as_str());
            let readable = match reader_table_get(&builder.types, kind) {
                Some(reader) => reader.reads(&record.body),
                None => {
                    proof {
                        self.lemma_misfit(start, views, i as int);
                    }
                    return Err(LoreError::TypeNotRegistered("type".to_owned()));
                },
            };
            assert(readable == self.reads(kind, record@.body)) by {
                assert(builder.reads(kind, record@.body) == self.reads(kind, record@.body));
            }
            if !readable {
                proof {
                    self.lemma_misfit(start, views, i as int);
                }
                return Err(LoreError::InvalidLoreEntry("Could not read entry".to_owned()));
            }
            let tags = Tags::new().with_all(clone_texts(&record.tags));
            assert(tags.texts() =~= record@.texts());
            let entry = LoreEntry { kind, body: record.body.clone() };
            assert(entry@ == record@.entry());
            match builder.insert_lorebook_entry(entry, &tags) {
                Ok(_) => {},
                Err(error) => {
                    proof {
                        self.lemma_misfit(start, views, i as int);
                    }
                    return Err(error);
                },
            }
            i += 1;
        }
        proof {
            assert(views.subrange(0, i as int) =~= views);
        }
        Ok(builder.lorebook)
    }
}

/// A file of records: the tags of its record, the name of the type of the
/// record, the tags of the record it builds on, if it builds on one, and
/// what the file holds.
pub struct LoreFile {
    pub tags: Vec<String>,
    pub tp: String,
    pub merge: Option<Vec<String>>,
    pub body: Json,
}

/// What a file is, as plain values.
pub struct FileView {
    pub tags: Seq<Seq<char>>,
    pub tp: Seq<char>,
    pub merge: Option<Seq<Seq<char>>>,
    pub body: JsonView,
}

impl View for LoreFile {
    type V = FileView;

    open spec fn view(&self) -> FileView {
        FileView {
            tags: texts_of(self.tags@),
            tp: self.tp@,
            merge: match self.merge {
                Some(tags) => Some(texts_of(tags@)),
                None => None,
            },
            body: self.body@,
        }
    }
}

/// The files of a sequence, as plain values.
pub open spec fn file_views(files: Seq<LoreFile>) -> Seq<FileView> {
    Seq::new(files.len(), |i: int| files[i]@)
}

impl FileView {
    /// The hash under which the record of the file is filed.
    pub open spec fn hash(self) -> u64 {
        tags_hash(self.tags.to_set())
    }
}

/// The place of the last file whose record is filed under `hash`, if there
/// is one.
pub open spec fn last_under(files: Seq<FileView>, hash: u64) -> Option<int>
    decreases files.len(),
{
    if files.len() == 0 {
        None
    } else if files.last().hash() == hash {
        Some(files.len() - 1)
    } else {
        last_under(files.drop_last(), hash)
    }
}

/// The place of the file that the record of the file at `at` takes its body
/// from. A file that a later file under the same tags replaces gives no
/// record. A file that builds on no record takes its own body. A file that
/// builds on a record takes the body of the last file under the tags it
/// names, and gives no record if there is none.
pub open spec fn source_of(files: Seq<FileView>, at: int) -> Option<int> {
    if last_under(files, files[at].hash()) != Some(at) {
        None
    } else {
        match files[at].merge {
            None => Some(at),
            Some(tags) => last_under(files, tags_hash(tags.to_set())),
        }
    }
}

/// The body of the record of the file at `at`, if the file gives a record.
/// A file that builds on no record gives what it holds. A file that builds
/// on a record gives what the file of that record holds, merged into
/// itself.
pub open spec fn body_of(files: Seq<FileView>, at: int) -> Option<JsonView> {
    match source_of(files, at) {
        None => None,
        Some(place) => Some(
            if files[at].merge is Some {
                files[place].body.merged(files[place].body)
            } else {
                files[place].body
            },
        ),
    }
}

/// The last file under a hash is one of the files, and is under the hash.
pub proof fn lemma_last_under(files: Seq<FileView>, hash: u64)
    ensures
        last_under(files, hash) matches Some(place) ==> 0 <= place < files.len()
            && files[place].hash() == hash,
    decreases files.len(),
{
    if files.len() > 0 && files.last().hash() != hash {
        lemma_last_under(files.drop_last(), hash);
    }
}

/// The hash of the set of the tags of a list.
fn hash_of_tags(tags: &Vec<String>) -> (hash: u64)
    ensures
        hash == tags_hash(texts_of(tags@).to_set()),
{
    let set = Tags::new().with_all(clone_texts(tags));
    assert(set.texts() =~= texts_of(tags@).to_set());
    set.hash()
}

/// For each file, the place of the file that its record takes its body
/// from, if it gives a record.
pub fn sources(files: &Vec<LoreFile>) -> (places: Vec<Option<usize>>)
    ensures
        places.len() == files.len(),
        forall|at: int|
            0 <= at < files.len() ==> match source_of(file_views(files@), at) {
                Some(place) => #[trigger] places[at] == Some(place as usize),
                None => places[at] is None,
            },
{
    let ghost views = file_views(files@);
    let mut last: HashMap<u64, usize> = HashMap::new();
    let mut hashes: Vec<u64> = Vec::new();
    let mut i: usize = 0;
    while i < files.len()
        invariant
            i <= files.len(),
            views == file_views(files@),
            hashes.len() == i,
            forall|j: int| 0 <= j < i ==> hashes[j] == (#[trigger] views[j]).hash(),
            forall|key: u64|
                match #[trigger] last_under(views.subrange(0, i as int), key) {
                    Some(place) => last@.contains_key(key) && last@[key] == place,
                    None => !last@.contains_key(key),
                },
        decreases files.len() - i,
    {
        let hash = hash_of_tags(&files[i].tags);
        let ghost before = last@;
        hashes.push(hash);
        last.insert(hash, i);
        proof {
            let seen = views.subrange(0, i as int);
            let next = views.subrange(0, i + 1);
            assert(next.drop_last() =~= seen);
            assert(next.last() == files[i as int]@);
            assert forall|key: u64|
                match #[trigger] last_under(next, key) {
                    Some(place) => last@.contains_key(key) && last@[key] == place,
                    None => !last@.contains_key(key),
                } by {
                if key != hash {
                    assert(last_under(next, key) == last_under(seen, key));
                    assert(last@.contains_key(key) == before.contains_key(key));
                }
            }
        }
        i += 1;
    }
    proof {
        assert(views.subrange(0, i as int) =~= views);
    }
    let mut places: Vec<Option<usize>> = Vec::new();
    let mut at: usize = 0;
    while at < files.len()
        invariant
            at <= files.len(),
            views == file_views(files@),
            hashes.len() == files.len(),
            places.len() == at,
            forall|j: int| 0 <= j < files.len() ==> hashes[j] == (#[trigger] views[j]).hash(),
            forall|key: u64|
                match #[trigger] last_under(views, key) {
                    Some(place) => last@.contains_key(key) && last@[key] == place,
                    None => !last@.contains_key(key),
                },
            forall|j: int|
                0 <= j < at ==> match source_of(views, j) {
                    Some(place) => #[trigger] places[j] == Some(place as usize),
                    None => places[j] is None,
                },
        decreases files.len() - at,
    {
        let ghost before = places@;
        let ghost own = last_under(views, hashes[at as int]);
        proof {
            assert(views[at as int] == files[at as int]@);
            lemma_last_under(views, hashes[at as int]);
        }
        let stands = match last.get(&hashes[at]) {
            Some(place) => *place == at,
            None => false,
        };
        let place = if !stands {
            None
        } else {
            match &files[at].merge {
                None => Some(at),
                Some(tags) => {
                    let wanted = hash_of_tags(tags);
                    proof {
                        lemma_last_under(views, wanted);
                    }
                    match last.get(&wanted) {
                        Some(place) => Some(*place),
                        None => None,
                    }
                },
            }
        };
        assert(match source_of(views, at as int) {
            Some(found) => place == Some(found as usize),
            None => place is None,
        });
        places.push(place);
        proof {
            assert forall|j: int| 0 <= j < at implies places[j] == before[j] by {}
        }
        at += 1;
    }
    places
}

/// For each file, the body of its record, if it gives a record.
pub fn bodies(files: &Vec<LoreFile>) -> (bodies: Vec<Option<Json>>)
    ensures
        bodies.len() == files.len(),
        forall|at: int|
            0 <= at < files.len() ==> match body_of(file_views(files@), at) {
                Some(body) => (#[trigger] bodies[at]) matches Some(made) && made@ == body,
                None => bodies[at] is None,
            },
{
    let ghost views = file_views(files@);
    let places = sources(files);
    let mut bodies: Vec<Option<Json>> = Vec::new();
    let mut at: usize = 0;
    while at < files.len()
        invariant
            at <= files.len(),
            views == file_views(files@),
            places.len() == files.len(),
            bodies.len() == at,
            forall|j: int|
                0 <= j < files.len() ==> match source_of(views, j) {
                    Some(place) => #[trigger] places[j] == Some(place as usize),
                    None => places[j] is None,
                },
            forall|j: int|
                0 <= j < at ==> match body_of(views, j) {
                    Some(body) => (#[trigger] bodies[j]) matches Some(made) && made@ == body,
                    None => bodies[j] is None,
                },
        decreases files.len() - at,
    {
        let ghost before = bodies@;
        proof {
            assert(views[at as int] == files[at as int]@);
            assert(places[at as int] is Some == source_of(views, at as int) is Some);
            lemma_last_under(views, views[at as int].hash());
            if views[at as int].merge is Some {
                lemma_last_under(views, tags_hash(views[at as int].merge->0.to_set()));
            }
        }
        let body = match places[at] {
            Some(place) => {
                assert(views[place as int] == files[place as int]@);
                let own = files[place].body.copy();
                if files[at].merge.is_some() {
                    Some(own.merged_with(&files[place].body))
                } else {
                    Some(own)
                }
            },
            None => None,
        };
        bodies.push(body);
        proof {
            assert forall|j: int| 0 <= j < at implies bodies[j] == before[j] by {}
        }
        at += 1;
    }
    bodies
}

/// A copy of a list of strings.
fn clone_texts(strings: &Vec<String>) -> (copy: Vec<String>)
    ensures
        texts_of(copy@) == texts_of(strings@),
{
    let mut copy: Vec<String> = Vec::new();
    let mut i: usize = 0;
    while i < strings.len()
        invariant
            i <= strings.len(),
            copy.len() == i,
            forall|j: int| 0 <= j < i ==> copy[j]@ == strings[j]@,
        decreases strings.len() - i,
    {
        copy.push(strings[i].clone());
        i += 1;
    }
    assert(texts_of(copy@) =~= texts_of(strings@));
    copy
}

/// A list up to and with the tag at `at` holds what the list up to `at`
/// holds, and that tag.
proof fn lemma_one_more(texts: Seq<Seq<char>>, at: int)
    requires
        0 <= at < texts.len(),
    ensures
        forall|text: Seq<char>|
            texts.subrange(0, at + 1).contains(text) == (texts.subrange(0, at).contains(text)
                || text == texts[at]),
{
    let seen = texts.subrange(0, at);
    let next = texts.subrange(0, at + 1);
    assert forall|text: Seq<char>|
        next.contains(text) == (seen.contains(text) || text == texts[at]) by {
        if next.contains(text) {
            let j = choose|j: int| 0 <= j < next.len() && next[j] == text;
            if j < at {
                assert(seen[j] == text);
            }
        }
        if seen.contains(text) {
            let j = choose|j: int| 0 <= j < seen.len() && seen[j] == text;
            assert(next[j] == text);
        }
        if text == texts[at] {
            assert(next[at] == text);
        }
    }
}

/// The hash of a list of tags is the hash of the list without one of them,
/// plus the hash of that one.
pub proof fn lemma_list_hash_remove(texts: Seq<Seq<char>>, at: int)
    requires
        0 <= at < texts.len(),
    ensures
        list_hash(texts) == list_hash(texts.remove(at)).wrapping_add(hash_of_name(texts[at])),
    decreases texts.len(),
{
    if at == texts.len() - 1 {
        assert(texts.remove(at) =~= texts.drop_last());
    } else {
        let front = texts.drop_last();
        lemma_list_hash_remove(front, at);
        let rest = texts.remove(at);
        assert(rest.drop_last() =~= front.remove(at));
        assert(rest.last() == texts.last());
        assert(front[at] == texts[at]);
    }
}

/// The hash of a list of tags does not depend on the order of the tags: two
/// lists that hold the same tags, each as often as the other, have the same
/// hash.
pub proof fn lemma_list_hash_order(one: Seq<Seq<char>>, other: Seq<Seq<char>>)
    requires
        one.to_multiset() == other.to_multiset(),
    ensures
        list_hash(one) == list_hash(other),
    decreases one.len(),
{
    one.to_multiset_ensures();
    other.to_multiset_ensures();
    if one.len() == 0 {
        assert(other.len() == 0);
    } else {
        let last = one.last();
        assert(one.contains(last)) by {
            assert(one[one.len() - 1] == last);
        }
        assert(other.to_multiset().count(last) > 0);
        assert(other.contains(last));
        let at = choose|at: int| 0 <= at < other.len() && other[at] == last;
        let front = one.drop_last();
        let rest = other.remove(at);
        assert(front =~= one.remove(one.len() - 1));
        assert(front.to_multiset() =~= one.to_multiset().remove(last));
        assert(rest.to_multiset() =~= other.to_multiset().remove(last));
        lemma_list_hash_order(front, rest);
        lemma_list_hash_remove(other, at);
    }
}

/// The list that a finite set is walked in holds nothing twice.
proof fn lemma_walk_once(texts: Set<Seq<char>>)
    requires
        texts.finite(),
    ensures
        texts.to_seq().no_duplicates(),
    decreases texts.len(),
{
    if texts.len() != 0 {
        let first = texts.choose();
        let rest = texts.remove(first);
        assert(texts.contains(first)) by {
            if !texts.contains(first) {
                texts.lemma_len0_is_empty();
            }
        }
        lemma_walk_once(rest);
        rest.lemma_to_seq_to_set_id();
        let tail = rest.to_seq();
        let walk = Seq::<Seq<char>>::empty().push(first) + tail;
        assert(texts.to_seq() == walk);
        assert(!tail.contains(first)) by {
            if tail.contains(first) {
                assert(tail.to_set().contains(first));
            }
        }
        assert forall|i: int, j: int| 0 <= i < walk.len() && 0 <= j < walk.len() && i != j implies walk[i]
            != walk[j] by {
            if i > 0 {
                assert(walk[i] == tail[i - 1]);
            }
            if j > 0 {
                assert(walk[j] == tail[j - 1]);
            }
            if i > 0 && j > 0 {
                assert(tail[i - 1] != tail[j - 1]);
            } else if i > 0 {
                assert(tail.contains(tail[i - 1]));
            } else {
                assert(tail.contains(tail[j - 1]));
            }
        }
    }
}

/// The hash of a set of tags is the hash of any list that holds each of
/// them once: it does not depend on the order in which they are listed.
pub proof fn lemma_list_hash(texts: Seq<Seq<char>>)
    requires
        texts.no_duplicates(),
    ensures
        tags_hash(texts.to_set()) == list_hash(texts),
{
    let set = texts.to_set();
    vstd::seq_lib::seq_to_set_is_finite(texts);
    let walk = set.to_seq();
    lemma_walk_once(set);
    set.lemma_to_seq_to_set_id();
    texts.to_multiset_ensures();
    walk.to_multiset_ensures();
    texts.lemma_multiset_has_no_duplicates();
    walk.lemma_multiset_has_no_duplicates();
    assert forall|text: Seq<char>| texts.to_multiset().count(text) == walk.to_multiset().count(
        text,
    ) by {
        assert(texts.contains(text) == set.contains(text));
        assert(walk.contains(text) == walk.to_set().contains(text));
    }
    assert(texts.to_multiset() =~= walk.to_multiset());
    lemma_list_hash_order(walk, texts);
}

} // verus!
