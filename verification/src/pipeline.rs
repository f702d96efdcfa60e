//! The change pipeline: how a list of changes, the registered hooks and the
//! store give the next store.
//!
//! The hooks are run on the changes, which may give further changes; those go
//! through the pipeline themselves before the changes that caused them are
//! committed. Every hook, at every depth, sees the store as it was when the
//! pipeline was entered.

use vstd::prelude::*;
use std::collections::HashMap;
use crate::component::{ComponentInstanceId, ComponentTypeId, ComponentView};
use crate::hook::ChangeHook;
use crate::query::{change_views, Change, ChangeView};
use crate::resource::RequestView;
use crate::resource_writer::ResourceWriter;
use crate::store::{committed_all, Store};

verus! {

/// How deep hooks may trigger hooks. Changes emitted at this depth are
/// committed without running hooks on them.
pub const MAX_HOOK_DEPTH: usize = 64;

/// The changes one hook emits for a list of changes, in the order of the list.
pub open spec fn reactions_of(
    hook: ChangeHook,
    components: Map<ComponentInstanceId, ComponentView>,
    changes: Seq<ChangeView>,
) -> Seq<ChangeView>
    decreases changes.len(),
{
    if changes.len() == 0 {
        Seq::empty()
    } else {
        reactions_of(hook, components, changes.drop_last()) + hook.reaction(
            changes.last(),
            components,
        )
    }
}

/// The resource writes one hook queues for a list of changes, in the order of
/// the list.
pub open spec fn requests_of(
    hook: ChangeHook,
    components: Map<ComponentInstanceId, ComponentView>,
    changes: Seq<ChangeView>,
) -> Seq<RequestView>
    decreases changes.len(),
{
    if changes.len() == 0 {
        Seq::empty()
    } else {
        requests_of(hook, components, changes.drop_last()) + hook.requests(
            changes.last(),
            components,
        )
    }
}

/// One round of hooks: the changes the hooks emit for a list of changes, hook
/// after hook in the order of registration.
pub open spec fn fan_out(
    hooks: Seq<ChangeHook>,
    components: Map<ComponentInstanceId, ComponentView>,
    changes: Seq<ChangeView>,
) -> Seq<ChangeView>
    decreases hooks.len(),
{
    if hooks.len() == 0 {
        Seq::empty()
    } else {
        fan_out(hooks.drop_last(), components, changes) + reactions_of(
            hooks.last(),
            components,
            changes,
        )
    }
}

/// The resource writes of one round of hooks, hook after hook in the order of
/// registration.
pub open spec fn fan_out_requests(
    hooks: Seq<ChangeHook>,
    components: Map<ComponentInstanceId, ComponentView>,
    changes: Seq<ChangeView>,
) -> Seq<RequestView>
    decreases hooks.len(),
{
    if hooks.len() == 0 {
        Seq::empty()
    } else {
        fan_out_requests(hooks.drop_last(), components, changes) + requests_of(
            hooks.last(),
            components,
            changes,
        )
    }
}

/// The components after `changes` went through the pipeline with `depth`
/// rounds of hooks to spare.
pub open spec fn applied(
    hooks: Seq<ChangeHook>,
    components: Map<ComponentInstanceId, ComponentView>,
    changes: Seq<ChangeView>,
    depth: nat,
) -> Map<ComponentInstanceId, ComponentView>
    decreases depth,
{
    if depth == 0 {
        committed_all(components, changes)
    } else {
        let emitted = fan_out(hooks, components, changes);
        let below = if emitted.len() == 0 {
            components
        } else {
            applied(hooks, components, emitted, (depth - 1) as nat)
        };
        committed_all(below, changes)
    }
}

/// The resource writes that the hooks queue while `changes` go through the
/// pipeline: those of the first round, then those of the rounds below it.
pub open spec fn requested(
    hooks: Seq<ChangeHook>,
    components: Map<ComponentInstanceId, ComponentView>,
    changes: Seq<ChangeView>,
    depth: nat,
) -> Seq<RequestView>
    decreases depth,
{
    if depth == 0 {
        Seq::empty()
    } else {
        let emitted = fan_out(hooks, components, changes);
        let below = if emitted.len() == 0 {
            Seq::empty()
        } else {
            requested(hooks, components, emitted, (depth - 1) as nat)
        };
        fan_out_requests(hooks, components, changes) + below
    }
}

/// The number of rounds of hooks that are run while `changes` go through the
/// pipeline. The last round is the first that emits nothing, unless the depth
/// runs out before.
pub open spec fn rounds(
    hooks: Seq<ChangeHook>,
    components: Map<ComponentInstanceId, ComponentView>,
    changes: Seq<ChangeView>,
    depth: nat,
) -> nat
    decreases depth,
{
    if depth == 0 {
        0
    } else {
        let emitted = fan_out(hooks, components, changes);
        if emitted.len() == 0 {
            1
        } else {
            1 + rounds(hooks, components, emitted, (depth - 1) as nat)
        }
    }
}

/// The pipeline never runs more rounds than its depth allows.
pub proof fn lemma_rounds_bounded(
    hooks: Seq<ChangeHook>,
    components: Map<ComponentInstanceId, ComponentView>,
    changes: Seq<ChangeView>,
    depth: nat,
)
    ensures
        rounds(hooks, components, changes, depth) <= depth,
    decreases depth,
{
    if depth > 0 {
        let emitted = fan_out(hooks, components, changes);
        if emitted.len() > 0 {
            lemma_rounds_bounded(hooks, components, emitted, (depth - 1) as nat);
        }
    }
}

/// Commits the changes to the store, one after the other.
pub fn commit_all(store: &mut Store, changes: &Vec<Change>)
    requires
        old(store).wf(),
    ensures
        final(store).wf(),
        final(store)@ == committed_all(old(store)@, change_views(changes@)),
{
    let ghost views = change_views(changes@);
    let mut i: usize = 0;
    while i < changes.len()
        invariant
            i <= changes.len(),
            views == change_views(changes@),
            store.wf(),
            store@ == committed_all(old(store)@, views.subrange(0, i as int)),
        decreases changes.len() - i,
    {
        proof {
            let next = views.subrange(0, i + 1);
            assert(next.drop_last() =~= views.subrange(0, i as int));
            assert(next.last() == changes[i as int]@);
        }
        store.commit(changes[i].clone());
        i += 1;
    }
    proof {
        assert(views.subrange(0, i as int) =~= views);
    }
}

/// The changes of components of one type, in their order.
pub open spec fn of_type(changes: Seq<ChangeView>, type_id: ComponentTypeId) -> Seq<ChangeView>
    decreases changes.len(),
{
    if changes.len() == 0 {
        Seq::empty()
    } else if changes.last().component.id.1 == type_id {
        of_type(changes.drop_last(), type_id).push(changes.last())
    } else {
        of_type(changes.drop_last(), type_id)
    }
}

/// A hook that is restricted to a type reacts to a list of changes as it
/// reacts to the changes of that type among them.
pub proof fn lemma_typed_hook(
    hook: ChangeHook,
    components: Map<ComponentInstanceId, ComponentView>,
    changes: Seq<ChangeView>,
    type_id: ComponentTypeId,
)
    requires
        hook.component_type() == Some(type_id),
    ensures
        reactions_of(hook, components, changes) == reactions_of(
            hook,
            components,
            of_type(changes, type_id),
        ),
        requests_of(hook, components, changes) == requests_of(
            hook,
            components,
            of_type(changes, type_id),
        ),
    decreases changes.len(),
{
    if changes.len() > 0 {
        let front = changes.drop_last();
        lemma_typed_hook(hook, components, front, type_id);
        if changes.last().component.id.1 == type_id {
            let picked = of_type(changes, type_id);
            assert(picked.drop_last() =~= of_type(front, type_id));
            assert(picked.last() == changes.last());
        } else {
            assert(reactions_of(hook, components, changes) =~= reactions_of(
                hook,
                components,
                front,
            ));
            assert(requests_of(hook, components, changes) =~= requests_of(
                hook,
                components,
                front,
            ));
        }
    }
}

/// The places in a list of changes where the changes of one component type
/// are.
pub struct Bucket {
    type_id: ComponentTypeId,
    members: Vec<usize>,
}

/// The changes at the given places.
pub open spec fn picked(changes: Seq<ChangeView>, members: Seq<usize>) -> Seq<ChangeView> {
    Seq::new(members.len(), |k: int| changes[members[k] as int])
}

/// Whether the buckets partition the first `upto` changes by component type:
/// every type among them has one bucket, which names the places of the
/// changes of that type in their order.
pub closed spec fn partitions(changes: Seq<ChangeView>, buckets: Seq<Bucket>, upto: int) -> bool {
    &&& forall|b: int, k: int|
        0 <= b < buckets.len() && 0 <= k < buckets[b].members@.len() ==> (
        #[trigger] buckets[b].members@[k]) < upto
    &&& forall|b: int|
        0 <= b < buckets.len() ==> picked(changes, (#[trigger] buckets[b]).members@) == of_type(
            changes.subrange(0, upto),
            buckets[b].type_id,
        )
    &&& forall|a: int, b: int|
        0 <= a < buckets.len() && 0 <= b < buckets.len() && a != b ==> (
        #[trigger] buckets[a]).type_id != (#[trigger] buckets[b]).type_id
    &&& forall|j: int|
        0 <= j < upto ==> exists|b: int|
            0 <= b < buckets.len() && (#[trigger] buckets[b]).type_id == (
            #[trigger] changes[j]).component.id.1
}

/// Among changes none of which is of a type, there are no changes of that
/// type.
proof fn lemma_none_of_type(changes: Seq<ChangeView>, type_id: ComponentTypeId)
    requires
        forall|j: int| 0 <= j < changes.len() ==> (#[trigger] changes[j]).component.id.1 != type_id,
    ensures
        of_type(changes, type_id).len() == 0,
    decreases changes.len(),
{
    if changes.len() > 0 {
        let front = changes.drop_last();
        assert forall|j: int| 0 <= j < front.len() implies (#[trigger] front[j]).component.id.1
            != type_id by {
            assert(front[j] == changes[j]);
        }
        lemma_none_of_type(front, type_id);
        assert(changes.last() == changes[changes.len() - 1]);
    }
}

/// Whether `places` maps each component type that has a bucket, by its
/// number, to the place of the bucket.
spec fn places_of(places: Map<u64, usize>, buckets: Seq<Bucket>) -> bool {
    &&& forall|b: int|
        0 <= b < buckets.len() ==> places.contains_key((#[trigger] buckets[b]).type_id.0)
    &&& forall|key: u64| #[trigger]
        places.contains_key(key) ==> places[key] < buckets.len()
            && buckets[places[key] as int].type_id.0 == key
}

/// The place of the bucket of a component type, if there is one.
fn find_bucket(
    places: &HashMap<u64, usize>,
    buckets: &Vec<Bucket>,
    type_id: ComponentTypeId,
) -> (found: Option<usize>)
    requires
        places_of(places@, buckets@),
    ensures
        found matches Some(b) ==> b < buckets.len() && buckets[b as int].type_id == type_id,
        found is None ==> forall|b: int|
            0 <= b < buckets.len() ==> (#[trigger] buckets[b]).type_id != type_id,
        found is None ==> !places@.contains_key(type_id.0),
{
    match places.get(&type_id.0) {
        Some(place) => Some(*place),
        None => None,
    }
}

/// Partitions the changes by component type: the buckets in the order in
/// which their types first occur, and the map from the number of a type to
/// the place of its bucket.
fn bucket_changes(changes: &Vec<Change>) -> (found: (Vec<Bucket>, HashMap<u64, usize>))
    ensures
        partitions(change_views(changes@), found.0@, changes.len() as int),
        places_of(found.1@, found.0@),
{
    let ghost views = change_views(changes@);
    let mut buckets: Vec<Bucket> = Vec::new();
    let mut places: HashMap<u64, usize> = HashMap::new();
    let mut j: usize = 0;
    while j < changes.len()
        invariant
            j <= changes.len(),
            views == change_views(changes@),
            partitions(views, buckets@, j as int),
            places_of(places@, buckets@),
        decreases changes.len() - j,
    {
        let type_id = changes[j].0.get_type();
        let ghost before = buckets@;
        let ghost seen = views.subrange(0, j as int);
        let ghost next = views.subrange(0, j + 1);
        proof {
            assert(next.drop_last() =~= seen);
            assert(next.last() == views[j as int]);
            assert(views[j as int].component.id.1 == type_id);
        }
        match find_bucket(&places, &buckets, type_id) {
            Some(b) => {
                let bucket = &mut buckets[b];
                bucket.members.push(j);
                proof {
                    let after = buckets@;
                    assert(after.len() == before.len());
                    assert forall|a: int| 0 <= a < after.len() && a != b implies after[a]
                        == before[a] by {}
                    assert(after[b as int].type_id == type_id);
                    assert forall|a: int| 0 <= a < after.len() implies (
                    #[trigger] after[a]).type_id == before[a].type_id by {}
                    assert(after[b as int].members@ == before[b as int].members@.push(j));
                    assert forall|a: int| 0 <= a < after.len() implies picked(
                        views,
                        (#[trigger] after[a]).members@,
                    ) == of_type(next, after[a].type_id) by {
                        if a == b {
                            assert(picked(views, after[a].members@) =~= picked(
                                views,
                                before[a].members@,
                            ).push(views[j as int]));
                        } else {
                            assert(before[a].type_id != before[b as int].type_id);
                        }
                    }
                    assert forall|i: int| 0 <= i < j + 1 implies exists|a: int|
                        0 <= a < after.len() && (#[trigger] after[a]).type_id == (
                        #[trigger] views[i]).component.id.1 by {
                        if i < j {
                            let a = choose|a: int|
                                0 <= a < before.len() && (#[trigger] before[a]).type_id
                                    == views[i].component.id.1;
                            assert(after[a].type_id == before[a].type_id);
                        } else {
                            assert(after[b as int].type_id == views[i].component.id.1);
                        }
                    }
                    assert forall|a: int, k: int|
                        0 <= a < after.len() && 0 <= k < after[a].members@.len() implies (
                    #[trigger] after[a].members@[k]) < j + 1 by {
                        if a == b {
                            if k < before[a].members@.len() {
                                assert(after[a].members@[k] == before[a].members@[k]);
                            }
                        } else {
                            assert(after[a].members@[k] == before[a].members@[k]);
                        }
                    }
                }
            },
            None => {
                let mut members: Vec<usize> = Vec::new();
                members.push(j);
                places.insert(type_id.0, buckets.len());
                buckets.push(Bucket { type_id, members });
                proof {
                    let after = buckets@;
                    assert forall|a: int| 0 <= a < before.len() implies after[a] == before[a] by {}
                    assert(after[before.len() as int].type_id == type_id);
                    let last = after[before.len() as int];
                    assert(last.type_id == type_id && last.members@ =~= seq![j]);
                    assert forall|i: int| 0 <= i < seen.len() implies (
                    #[trigger] seen[i]).component.id.1 != type_id by {
                        let a = choose|a: int|
                            0 <= a < before.len() && (#[trigger] before[a]).type_id
                                == views[i].component.id.1;
                    }
                    lemma_none_of_type(seen, type_id);
                    assert forall|a: int| 0 <= a < after.len() implies picked(
                        views,
                        (#[trigger] after[a]).members@,
                    ) == of_type(next, after[a].type_id) by {
                        if a == before.len() {
                            assert(picked(views, last.members@) =~= seq![views[j as int]]);
                            assert(of_type(next, type_id) =~= seq![views[j as int]]);
                        }
                    }
                    assert forall|i: int| 0 <= i < j + 1 implies exists|a: int|
                        0 <= a < after.len() && (#[trigger] after[a]).type_id == (
                        #[trigger] views[i]).component.id.1 by {
                        if i < j {
                            let a = choose|a: int|
                                0 <= a < before.len() && (#[trigger] before[a]).type_id
                                    == views[i].component.id.1;
                            assert(after[a].type_id == before[a].type_id);
                        } else {
                            assert(after[before.len() as int].type_id
                                == views[i].component.id.1);
                        }
                    }
                    assert forall|a: int, k: int|
                        0 <= a < after.len() && 0 <= k < after[a].members@.len() implies (
                    #[trigger] after[a].members@[k]) < j + 1 by {
                        if a < before.len() {
                            assert(after[a].members@[k] == before[a].members@[k]);
                        }
                    }
                }
            },
        }
        j += 1;
    }
    proof {
        assert(views.subrange(0, j as int) =~= views);
    }
    (buckets, places)
}

/// Runs one hook on the changes at the given places, in their order.
fn run_hook_on(
    hook: &ChangeHook,
    store: &Store,
    changes: &Vec<Change>,
    members: &Vec<usize>,
    writer: &mut ResourceWriter,
) -> (emitted: Vec<Change>)
    requires
        store.wf(),
        forall|k: int| 0 <= k < members.len() ==> (#[trigger] members[k]) < changes.len(),
    ensures
        change_views(emitted@) == reactions_of(
            *hook,
            store@,
            picked(change_views(changes@), members@),
        ),
        final(writer)@ == old(writer)@ + requests_of(
            *hook,
            store@,
            picked(change_views(changes@), members@),
        ),
{
    let ghost views = picked(change_views(changes@), members@);
    let mut emitted: Vec<Change> = Vec::new();
    let mut i: usize = 0;
    proof {
        assert(change_views(emitted@) =~= reactions_of(*hook, store@, views.subrange(0, 0)));
        assert(writer@ =~= old(writer)@ + requests_of(*hook, store@, views.subrange(0, 0)));
    }
    while i < members.len()
        invariant
            i <= members.len(),
            store.wf(),
            forall|k: int| 0 <= k < members.len() ==> (#[trigger] members[k]) < changes.len(),
            views == picked(change_views(changes@), members@),
            change_views(emitted@) == reactions_of(*hook, store@, views.subrange(0, i as int)),
            writer@ == old(writer)@ + requests_of(*hook, store@, views.subrange(0, i as int)),
        decreases members.len() - i,
    {
        let ghost before = emitted@;
        let at = members[i];
        let mut more = hook.execute(&changes[at], store, writer);
        proof {
            let next = views.subrange(0, i + 1);
            assert(next.drop_last() =~= views.subrange(0, i as int));
            assert(next.last() == changes[at as int]@);
            assert(change_views(before + more@) =~= change_views(before) + change_views(more@));
            assert(writer@ =~= old(writer)@ + requests_of(*hook, store@, next));
        }
        emitted.append(&mut more);
        i += 1;
    }
    proof {
        assert(views.subrange(0, i as int) =~= views);
    }
    emitted
}

/// Runs one hook on the changes it applies to, in their order. A hook that
/// is restricted to a component type is run on the bucket of that type; any
/// other hook is run on every change.
fn run_hook(
    hook: &ChangeHook,
    store: &Store,
    changes: &Vec<Change>,
    buckets: &Vec<Bucket>,
    places: &HashMap<u64, usize>,
    writer: &mut ResourceWriter,
) -> (emitted: Vec<Change>)
    requires
        store.wf(),
        partitions(change_views(changes@), buckets@, changes.len() as int),
        places_of(places@, buckets@),
    ensures
        change_views(emitted@) == reactions_of(*hook, store@, change_views(changes@)),
        final(writer)@ == old(writer)@ + requests_of(*hook, store@, change_views(changes@)),
{
    let ghost views = change_views(changes@);
    proof {
        assert(views.subrange(0, changes.len() as int) =~= views);
    }
    match hook.get_type() {
        Some(type_id) => {
            proof {
                lemma_typed_hook(*hook, store@, views, type_id);
            }
            match find_bucket(places, buckets, type_id) {
                Some(b) => run_hook_on(hook, store, changes, &buckets[b].members, writer),
                None => {
                    proof {
                        assert forall|j: int| 0 <= j < views.len() implies (
                        #[trigger] views[j]).component.id.1 != type_id by {
                            let b = choose|b: int|
                                0 <= b < buckets.len() && (#[trigger] buckets[b]).type_id
                                    == views[j].component.id.1;
                        }
                        lemma_none_of_type(views, type_id);
                        assert(of_type(views, type_id) =~= Seq::<ChangeView>::empty());
                    }
                    let emitted: Vec<Change> = Vec::new();
                    proof {
                        assert(change_views(emitted@) =~= Seq::<ChangeView>::empty());
                        assert(writer@ =~= old(writer)@ + Seq::<RequestView>::empty());
                    }
                    emitted
                },
            }
        },
        None => {
            let mut emitted: Vec<Change> = Vec::new();
            let mut i: usize = 0;
            proof {
                assert(change_views(emitted@) =~= reactions_of(*hook, store@, views.subrange(0, 0)));
                assert(writer@ =~= old(writer)@ + requests_of(*hook, store@, views.subrange(0, 0)));
            }
            while i < changes.len()
                invariant
                    i <= changes.len(),
                    store.wf(),
                    views == change_views(changes@),
                    change_views(emitted@) == reactions_of(
                        *hook,
                        store@,
                        views.subrange(0, i as int),
                    ),
                    writer@ == old(writer)@ + requests_of(*hook, store@, views.subrange(0, i as int)),
                decreases changes.len() - i,
            {
                let ghost before = emitted@;
                let mut more = hook.execute(&changes[i], store, writer);
                proof {
                    let next = views.subrange(0, i + 1);
                    assert(next.drop_last() =~= views.subrange(0, i as int));
                    assert(next.last() == changes[i as int]@);
                    assert(change_views(before + more@) =~= change_views(before) + change_views(
                        more@,
                    ));
                    assert(writer@ =~= old(writer)@ + requests_of(*hook, store@, next));
                }
                emitted.append(&mut more);
                i += 1;
            }
            proof {
                assert(views.subrange(0, i as int) =~= views);
            }
            emitted
        },
    }
}

/// Runs one round of hooks on the changes: the changes are put into buckets
/// by component type, and then every hook is run, in the order of
/// registration, on every change it applies to, in the order of the list.
pub fn run_hooks(
    hooks: &Vec<ChangeHook>,
    store: &Store,
    changes: &Vec<Change>,
    writer: &mut ResourceWriter,
) -> (emitted: Vec<Change>)
    requires
        store.wf(),
    ensures
        change_views(emitted@) == fan_out(hooks@, store@, change_views(changes@)),
        final(writer)@ == old(writer)@ + fan_out_requests(hooks@, store@, change_views(changes@)),
{
    let ghost views = change_views(changes@);
    let (buckets, places) = bucket_changes(changes);
    let mut emitted: Vec<Change> = Vec::new();
    let mut i: usize = 0;
    proof {
        assert(change_views(emitted@) =~= fan_out(hooks@.subrange(0, 0), store@, views));
        assert(writer@ =~= old(writer)@ + fan_out_requests(hooks@.subrange(0, 0), store@, views));
    }
    while i < hooks.len()
        invariant
            i <= hooks.len(),
            store.wf(),
            views == change_views(changes@),
            partitions(views, buckets@, changes.len() as int),
            places_of(places@, buckets@),
            change_views(emitted@) == fan_out(hooks@.subrange(0, i as int), store@, views),
            writer@ == old(writer)@ + fan_out_requests(hooks@.subrange(0, i as int), store@, views),
        decreases hooks.len() - i,
    {
        let ghost before = emitted@;
        let mut more = run_hook(&hooks[i], store, changes, &buckets, &places, writer);
        proof {
            let next = hooks@.subrange(0, i + 1);
            assert(next.drop_last() =~= hooks@.subrange(0, i as int));
            assert(next.last() == hooks[i as int]);
            assert(change_views(before + more@) =~= change_views(before) + change_views(more@));
            assert(writer@ =~= old(writer)@ + fan_out_requests(next, store@, views));
        }
        emitted.append(&mut more);
        i += 1;
    }
    proof {
        assert(hooks@.subrange(0, i as int) =~= hooks@);
    }
    emitted
}

/// Sends the changes through the pipeline with `depth` rounds of hooks to
/// spare, and returns the number of rounds that were run.
pub fn apply(
    store: &mut Store,
    hooks: &Vec<ChangeHook>,
    changes: &Vec<Change>,
    depth: usize,
    writer: &mut ResourceWriter,
) -> (rounds_run: usize)
    requires
        old(store).wf(),
    ensures
        final(store).wf(),
        final(store)@ == applied(hooks@, old(store)@, change_views(changes@), depth as nat),
        final(writer)@ == old(writer)@ + requested(
            hooks@,
            old(store)@,
            change_views(changes@),
            depth as nat,
        ),
        rounds_run == rounds(hooks@, old(store)@, change_views(changes@), depth as nat),
    decreases depth,
{
    if depth == 0 {
        commit_all(store, changes);
        assert(writer@ =~= old(writer)@ + Seq::<RequestView>::empty());
        return 0;
    }
    let emitted = run_hooks(hooks, store, changes, writer);
    let ghost queued = writer@;
    let below = if emitted.len() == 0 {
        assert(change_views(emitted@).len() == 0);
        0
    } else {
        assert(change_views(emitted@).len() > 0);
        apply(store, hooks, &emitted, depth - 1, writer)
    };
    proof {
        lemma_rounds_bounded(hooks@, old(store)@, change_views(emitted@), (depth - 1) as nat);
        assert(writer@ =~= old(writer)@ + requested(
            hooks@,
            old(store)@,
            change_views(changes@),
            depth as nat,
        ));
    }
    commit_all(store, changes);
    1 + below
}

} // verus!
