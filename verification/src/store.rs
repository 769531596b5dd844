//! The annotations that are remembered for every seed.
//!
//! An entry is keyed by seed, kind of resource and name. It outlives its resource: only a reset
//! that leaves nothing annotated takes it out.

use crate::annotation::{
    lemma_first_read_only_unique, lemma_tags_finite, lemma_written_name_identifies,
    resource_type_name, written_name, Annotation, AnnotationChange, AnnotationView, ChangeView,
    ResourceType,
};
use crate::checkpoint::{
    entries_of, fault, faultless, first_read_only, gives, lemma_restore_next, lists, record_of,
    records_entry, resource_type_from_name, restores, CheckpointFile, CheckpointRead,
    CheckpointRecord, CHECKPOINT_VERSION,
};
use crate::error::CheckpointError;
use crate::ordered_map::{lemma_ascending_distinct, lemma_contents_at, OrderedKey, OrderedMap};
use crate::text::{
    compare_text, lemma_precedes_irreflexive, lemma_precedes_transitive, precedes, quoted, Order,
};
use vstd::prelude::*;

verus! {

/// Which entry of the store is meant.
pub struct KeyView {
    pub seed: Seq<char>,
    pub resource_type: ResourceType,
    pub name: Seq<char>,
}

impl KeyView {
    /// The order of keys: by seed, then by the name of the kind of resource, then by name.
    pub open spec fn before(self, other: Self) -> bool {
        ||| precedes(self.seed, other.seed)
        ||| self.seed == other.seed && precedes(
            written_name(self.resource_type),
            written_name(other.resource_type),
        )
        ||| self.seed == other.seed && self.resource_type == other.resource_type && precedes(
            self.name,
            other.name,
        )
    }
}

/// The key of an entry. A node and a device have an empty name.
#[derive(Debug)]
pub struct Key {
    pub seed: String,
    pub resource_type: ResourceType,
    pub name: String,
}

impl View for Key {
    type V = KeyView;

    open spec fn view(&self) -> KeyView {
        KeyView { seed: self.seed@, resource_type: self.resource_type, name: self.name@ }
    }
}

impl OrderedKey for Key {
    open spec fn before(a: KeyView, b: KeyView) -> bool {
        a.before(b)
    }

    proof fn before_irreflexive(a: KeyView) {
        lemma_precedes_irreflexive(a.seed);
        lemma_precedes_irreflexive(written_name(a.resource_type));
        lemma_precedes_irreflexive(a.name);
    }

    proof fn before_transitive(a: KeyView, b: KeyView, c: KeyView) {
        if precedes(a.seed, b.seed) && precedes(b.seed, c.seed) {
            lemma_precedes_transitive(a.seed, b.seed, c.seed);
        }
        if precedes(written_name(a.resource_type), written_name(b.resource_type)) && precedes(
            written_name(b.resource_type),
            written_name(c.resource_type),
        ) {
            lemma_precedes_transitive(
                written_name(a.resource_type),
                written_name(b.resource_type),
                written_name(c.resource_type),
            );
        }
        if precedes(a.name, b.name) && precedes(b.name, c.name) {
            lemma_precedes_transitive(a.name, b.name, c.name);
        }
    }

    fn order(&self, other: &Self) -> (order: Order) {
        match compare_text(self.seed.as_str(), other.seed.as_str()) {
            Order::Before => Order::Before,
            Order::After => Order::After,
            Order::Same => match compare_text(
                resource_type_name(self.resource_type),
                resource_type_name(other.resource_type),
            ) {
                Order::Before => Order::Before,
                Order::After => Order::After,
                Order::Same => {
                    proof {
                        lemma_written_name_identifies(self.resource_type, other.resource_type);
                    }
                    compare_text(self.name.as_str(), other.name.as_str())
                },
            },
        }
    }
}

/// What a store holds: its entries, and how many it may have before it refuses a new key.
#[verifier::ext_equal]
pub struct StoreView {
    pub entries: Map<KeyView, AnnotationView>,
    pub limit: nat,
}

impl StoreView {
    /// The annotation under `key`, where there is one.
    pub open spec fn lookup(self, key: KeyView) -> Option<AnnotationView> {
        if self.entries.contains_key(key) {
            Some(self.entries[key])
        } else {
            None
        }
    }

    /// A change under `key` is refused: the key is new and the store is full.
    pub open spec fn refuses(self, key: KeyView) -> bool {
        !self.entries.contains_key(key) && self.entries.dom().len() >= self.limit
    }

    /// What the annotation under `key` becomes by a change that is not refused.
    pub open spec fn merged(self, key: KeyView, change: ChangeView) -> AnnotationView {
        change.merged(
            if self.entries.contains_key(key) {
                self.entries[key]
            } else {
                AnnotationView::nothing()
            },
        )
    }

    /// The store after a change under `key`. An entry with nothing left annotated is taken out.
    pub open spec fn applied(self, key: KeyView, change: ChangeView) -> StoreView {
        if self.refuses(key) {
            self
        } else if self.merged(key, change) == AnnotationView::nothing() {
            StoreView { entries: self.entries.remove(key), ..self }
        } else {
            StoreView { entries: self.entries.insert(key, self.merged(key, change)), ..self }
        }
    }
}

/// Annotations remembered for every seed.
#[derive(Debug)]
pub struct AnnotationStore {
    entries: OrderedMap<Key, Annotation>,
    limit: usize,
}

impl View for AnnotationStore {
    type V = StoreView;

    closed spec fn view(&self) -> StoreView {
        StoreView {
            entries: self.entries@.map_values(|annotation: Annotation| annotation@),
            limit: self.limit as nat,
        }
    }
}

impl AnnotationStore {
    /// An empty store.
    pub fn memory(limit: usize) -> (store: Self)
        ensures
            store@ == (StoreView { entries: Map::empty(), limit: limit as nat }),
    {
        let store = AnnotationStore { entries: OrderedMap::new(), limit };
        assert(store@.entries =~= Map::<KeyView, AnnotationView>::empty());
        store
    }

    /// How many entries there are.
    pub fn len(&self) -> (len: usize)
        ensures
            len == self@.entries.dom().len(),
            self@.entries.dom().finite(),
    {
        assert(self@.entries.dom() =~= self.entries@.dom());
        self.entries.len()
    }

    /// How many entries there may be before a new key is refused.
    pub fn limit(&self) -> (limit: usize)
        ensures
            limit == self@.limit,
    {
        self.limit
    }

    /// The annotation of a resource.
    pub fn get(&self, seed: &str, resource_type: ResourceType, name: &str) -> (annotation: Option<
        Annotation,
    >)
        ensures
            self@.lookup(KeyView { seed: seed@, resource_type, name: name@ }) == (match annotation {
                Some(annotation) => Some(annotation@),
                None => None,
            }),
    {
        let key = Key { seed: seed.to_owned(), resource_type, name: name.to_owned() };
        match self.entries.get(&key) {
            Some(annotation) => Some(annotation.clone()),
            None => None,
        }
    }

    /// Applies one change. A new key at the limit is refused, and the result is then `false`.
    pub fn apply(&mut self, seed: &str, change: &AnnotationChange<'_>) -> (remembered: bool)
        ensures
            final(self)@ == old(self)@.applied(
                KeyView {
                    seed: seed@,
                    resource_type: change.resource_type,
                    name: change.key_name(),
                },
                change@,
            ),
            remembered == !old(self)@.refuses(
                KeyView {
                    seed: seed@,
                    resource_type: change.resource_type,
                    name: change.key_name(),
                },
            ),
            remembered == (old(self)@.entries.dom().len() < old(self)@.limit || old(
                self,
            )@.entries.contains_key(
                KeyView {
                    seed: seed@,
                    resource_type: change.resource_type,
                    name: change.key_name(),
                },
            )),
    {
        let name: String = match change.name {
            Some(name) => name.to_owned(),
            None => String::new(),
        };
        let key = Key { seed: seed.to_owned(), resource_type: change.resource_type, name };
        let ghost before = self@;
        let len: usize = self.len();
        let mut entry: Annotation = match self.entries.get(&key) {
            Some(annotation) => annotation.clone(),
            None => {
                if len >= self.limit {
                    return false;
                }
                Annotation::default()
            },
        };
        change.merge_into(&mut entry);
        if entry.is_empty() {
            self.entries.remove(&key);
            assert(self@.entries =~= before.entries.remove(key@));
        } else {
            let ghost key_view = key@;
            self.entries.insert(key, entry);
            assert(self@.entries =~= before.entries.insert(key_view, entry@));
        }
        true
    }

    /// The records of all entries, in order, to be written as a checkpoint.
    pub fn checkpoint(&self) -> (file: CheckpointFile)
        ensures
            file.version == CHECKPOINT_VERSION,
            lists(file.records(), self@.entries),
            forall|i: int|
                0 <= i < file.records().len() ==> (
                #[trigger] file.records()[i]).annotation.tags.dom().finite(),
    {
        let len: usize = self.entries.len();
        let ghost pairs = self.entries.pairs();
        let mut annotations: Vec<CheckpointRecord> = Vec::new();
        for i in 0..len
            invariant
                len == pairs.len(),
                pairs == self.entries.pairs(),
                annotations@.len() == i,
                forall|j: int|
                    0 <= j < i ==> (#[trigger] annotations@[j])@ == record_of(
                        pairs[j].0,
                        pairs[j].1@,
                    ),
        {
            let key: &Key = self.entries.key_at(i);
            let annotation: &Annotation = self.entries.value_at(i);
            annotations.push(
                CheckpointRecord {
                    seed: key.seed.clone(),
                    resource_type: resource_type_name(key.resource_type).to_owned(),
                    name: key.name.clone(),
                    label: annotation.label.clone(),
                    description: annotation.description.clone(),
                    tags: annotation.tags.clone(),
                },
            );
        }
        let file = CheckpointFile { version: CHECKPOINT_VERSION, annotations };
        proof {
            let records = file.records();
            let entries = self@.entries;
            lemma_ascending_distinct::<Key, Annotation>(pairs);
            assert forall|i: int, j: int| 0 <= i < j < records.len() implies (
            #[trigger] records[i]).before(#[trigger] records[j]) by {
                assert(Key::before(pairs[i].0, pairs[j].0));
            }
            assert forall|i: int| 0 <= i < records.len() implies records_entry(
                #[trigger] records[i],
                entries,
            ) by {
                lemma_contents_at(pairs, i);
                assert(entries.contains_key(pairs[i].0));
            }
            assert forall|i: int| 0 <= i < records.len() implies (
            #[trigger] records[i]).annotation.tags.dom().finite() by {
                lemma_tags_finite(file.annotations@[i].tags);
            }
            assert forall|key: KeyView| #[trigger] entries.contains_key(key) implies records.contains(
                record_of(key, entries[key]),
            ) by {
                let i = choose|i: int| 0 <= i < pairs.len() && #[trigger] pairs[i].0 == key;
                lemma_contents_at(pairs, i);
                assert(records[i] == record_of(key, entries[key]));
            }
        }
        file
    }

    /// The store that a read of the checkpoint at `path` gives. The limit does not bear on what is
    /// restored.
    pub fn open(path: &str, read: CheckpointRead, limit: usize) -> (opened: Result<
        Self,
        CheckpointError,
    >)
        ensures
            match opened {
                Ok(store) => store@.limit == limit && gives(read, path@, Ok(store@.entries)),
                Err(error) => gives(read, path@, Err(error@)),
            },
            read is Unreadable || read is Malformed ==> opened is Err,
            read is Missing ==> opened is Ok && opened->Ok_0@ == (StoreView {
                entries: Map::empty(),
                limit: limit as nat,
            }),
    {
        match read {
            CheckpointRead::Missing => Ok(Self::memory(limit)),
            CheckpointRead::Unreadable { cause } => Err(
                CheckpointError::failed("read", path, cause.as_str()),
            ),
            CheckpointRead::Malformed { cause } => Err(
                CheckpointError::failed("parse", path, cause.as_str()),
            ),
            CheckpointRead::Parsed { file } => {
                if file.version != CHECKPOINT_VERSION {
                    return Err(CheckpointError::unsupported_version(file.version, path));
                }
                Self::restore(path, file.annotations, limit)
            },
        }
    }

    /// The store that a list of records gives.
    fn restore(path: &str, annotations: Vec<CheckpointRecord>, limit: usize) -> (restored: Result<
        Self,
        CheckpointError,
    >)
        ensures
            ({
                let records = annotations@.map_values(|record: CheckpointRecord| record@);
                match restored {
                    Ok(store) => store@.limit == limit && restores(
                        records,
                        path@,
                        Ok(store@.entries),
                    ),
                    Err(error) => restores(records, path@, Err(error@)),
                }
            }),
    {
        let ghost records = annotations@.map_values(|record: CheckpointRecord| record@);
        let mut store = Self::memory(limit);
        assert(entries_of(records.take(0)) =~= store@.entries);
        for record in iter: annotations
            invariant
                store@.limit == limit,
                records == iter.seq().map_values(|record: CheckpointRecord| record@),
                faultless(records, iter.index() as int, path@),
                store@.entries == entries_of(records.take(iter.index() as int)),
        {
            let ghost i = iter.index() as int;
            assert(record@ == records[i]);
            let resource_type: ResourceType = match resource_type_from_name(
                record.resource_type.as_str(),
            ) {
                Ok(resource_type) => resource_type,
                Err(error) => {
                    assert(fault(records, i, path@) == Some(error@));
                    return Err(error);
                },
            };
            if let Some(tag) = record.tags.first_read_only() {
                proof {
                    let tags = record.tags@;
                    lemma_first_read_only_unique(tags, tag@, first_read_only(tags));
                    assert(tags.contains_key(tag@));
                }
                let error = CheckpointError::read_only_tag(quoted(tag).as_str(), path);
                assert(fault(records, i, path@) == Some(error@));
                return Err(error);
            }
            proof {
                lemma_restore_next(records, i, path@);
            }
            let ghost before = store@;
            let key = Key { seed: record.seed, resource_type, name: record.name };
            let ghost key_view = key@;
            let annotation = Annotation {
                label: record.label,
                description: record.description,
                tags: record.tags,
            };
            if store.entries.insert(key, annotation).is_some() {
                let error = CheckpointError::duplicate(path);
                assert(fault(records, i, path@) == Some(error@));
                return Err(error);
            }
            assert(store@.entries =~= before.entries.insert(key_view, annotation@));
        }
        assert(records.take(records.len() as int) =~= records);
        Ok(store)
    }
}

impl StoreView {
    /// No entry is without an annotation.
    pub open spec fn all_annotated(self) -> bool {
        forall|key: KeyView| #[trigger]
            self.entries.contains_key(key) ==> self.entries[key] != AnnotationView::nothing()
    }

    /// No entry has a read-only tag.
    pub open spec fn all_tags_writable(self) -> bool {
        forall|key: KeyView| #[trigger]
            self.entries.contains_key(key) ==> self.entries[key].tags_writable()
    }
}

/// A change is about one entry: seeds, kinds of resource and names are kept apart.
pub proof fn law_change_leaves_other_entries(
    store: StoreView,
    key: KeyView,
    change: ChangeView,
    other: KeyView,
)
    requires
        other != key,
    ensures
        store.applied(key, change).lookup(other) == store.lookup(other),
{
}

/// What a change leaves annotated can be looked up, and nothing else can.
pub proof fn law_lookup_after_change(store: StoreView, key: KeyView, change: ChangeView)
    requires
        !store.refuses(key),
    ensures
        store.merged(key, change) != AnnotationView::nothing() ==> store.applied(
            key,
            change,
        ).lookup(key) == Some(store.merged(key, change)),
        store.merged(key, change) == AnnotationView::nothing() ==> store.applied(
            key,
            change,
        ).lookup(key) is None,
{
}

/// A member that is not flagged keeps its value in an entry that remains.
pub proof fn law_unflagged_members_are_kept(store: StoreView, key: KeyView, change: ChangeView)
    requires
        store.entries.contains_key(key),
        store.applied(key, change).entries.contains_key(key),
    ensures
        !change.label_changed ==> store.applied(key, change).entries[key].label
            == store.entries[key].label,
        !change.description_changed ==> store.applied(key, change).entries[key].description
            == store.entries[key].description,
        !change.tags_changed ==> store.applied(key, change).entries[key].tags
            == store.entries[key].tags,
{
}

/// Resetting every member forgets the entry, whatever it held.
pub proof fn law_reset_forgets(store: StoreView, key: KeyView, change: ChangeView)
    requires
        change.label_changed && change.description_changed && change.tags_changed,
        change.annotation == AnnotationView::nothing(),
    ensures
        !store.applied(key, change).entries.contains_key(key),
{
    assert(change.merged(AnnotationView::nothing()) =~= AnnotationView::nothing());
    assert(store.merged(key, change) =~= AnnotationView::nothing());
}

/// A store never grows beyond its limit. One that began beyond it does not grow.
pub proof fn law_limit_holds(store: StoreView, key: KeyView, change: ChangeView)
    requires
        store.entries.dom().finite(),
    ensures
        store.applied(key, change).limit == store.limit,
        store.applied(key, change).entries.dom().finite(),
        store.applied(key, change).entries.dom().len() <= store.limit
            || store.applied(key, change).entries.dom().len() <= store.entries.dom().len(),
{
    assert(store.entries.remove(key).dom() =~= store.entries.dom().remove(key));
    assert(store.entries.insert(key, store.merged(key, change)).dom()
        =~= store.entries.dom().insert(key));
}

/// At the limit a new key is refused and nothing changes; a key that is there is not refused.
pub proof fn law_full_store(store: StoreView, key: KeyView, change: ChangeView)
    requires
        store.entries.dom().len() >= store.limit,
    ensures
        store.refuses(key) == !store.entries.contains_key(key),
        !store.entries.contains_key(key) ==> store.applied(key, change) == store,
{
}

/// A change that is applied again changes nothing more.
pub proof fn law_change_is_idempotent(store: StoreView, key: KeyView, change: ChangeView)
    ensures
        store.applied(key, change).applied(key, change) == store.applied(key, change),
{
    let after = store.applied(key, change);
    if !store.refuses(key) {
        let merged = store.merged(key, change);
        assert(change.merged(merged) =~= merged);
        if merged == AnnotationView::nothing() {
            assert(change.merged(AnnotationView::nothing()) =~= AnnotationView::nothing());
            assert(after.entries.remove(key) =~= after.entries);
        } else {
            assert(after.entries.insert(key, merged) =~= after.entries);
        }
    }
}

/// Changes never leave an entry with nothing annotated.
pub proof fn law_entries_stay_annotated(store: StoreView, key: KeyView, change: ChangeView)
    requires
        store.all_annotated(),
    ensures
        store.applied(key, change).all_annotated(),
{
}

/// Changes with writable tags keep all tags writable.
pub proof fn law_tags_stay_writable(store: StoreView, key: KeyView, change: ChangeView)
    requires
        store.all_tags_writable(),
        change.tags_changed ==> change.annotation.tags_writable(),
    ensures
        store.applied(key, change).all_tags_writable(),
{
    let after = store.applied(key, change);
    assert forall|other: KeyView| #[trigger]
        after.entries.contains_key(other) implies after.entries[other].tags_writable() by {
        if other != key || store.refuses(key) {
            assert(store.entries.contains_key(other));
        } else if store.entries.contains_key(key) {
            assert(store.entries[key].tags_writable());
        }
    }
}

/// An entry goes only by a change under its own key that leaves nothing annotated: none is dropped
/// to make room.
pub proof fn law_only_a_reset_forgets(
    store: StoreView,
    key: KeyView,
    change: ChangeView,
    other: KeyView,
)
    requires
        store.entries.contains_key(other),
        !store.applied(key, change).entries.contains_key(other),
    ensures
        other == key,
        change.merged(store.entries[key]) == AnnotationView::nothing(),
{
}

/// The store after a run of changes, each under its key.
pub open spec fn after_changes(store: StoreView, changes: Seq<(KeyView, ChangeView)>) -> StoreView
    decreases changes.len(),
{
    if changes.len() == 0 {
        store
    } else {
        let last = changes.last();
        after_changes(store, changes.drop_last()).applied(last.0, last.1)
    }
}

/// Over a run of changes a store stays within its limit, or does not grow.
pub proof fn law_limit_holds_over_a_run(store: StoreView, changes: Seq<(KeyView, ChangeView)>)
    requires
        store.entries.dom().finite(),
    ensures
        after_changes(store, changes).limit == store.limit,
        after_changes(store, changes).entries.dom().finite(),
        after_changes(store, changes).entries.dom().len() <= store.limit
            || after_changes(store, changes).entries.dom().len() <= store.entries.dom().len(),
    decreases changes.len(),
{
    if changes.len() > 0 {
        law_limit_holds_over_a_run(store, changes.drop_last());
        law_limit_holds(
            after_changes(store, changes.drop_last()),
            changes.last().0,
            changes.last().1,
        );
    }
}

/// Over a run of changes no entry is left with nothing annotated.
pub proof fn law_entries_stay_annotated_over_a_run(
    store: StoreView,
    changes: Seq<(KeyView, ChangeView)>,
)
    requires
        store.all_annotated(),
    ensures
        after_changes(store, changes).all_annotated(),
    decreases changes.len(),
{
    if changes.len() > 0 {
        law_entries_stay_annotated_over_a_run(store, changes.drop_last());
        law_entries_stay_annotated(
            after_changes(store, changes.drop_last()),
            changes.last().0,
            changes.last().1,
        );
    }
}

/// Over a run of changes with writable tags all tags stay writable.
pub proof fn law_tags_stay_writable_over_a_run(store: StoreView, changes: Seq<(KeyView, ChangeView)>)
    requires
        store.all_tags_writable(),
        forall|i: int|
            0 <= i < changes.len() && (#[trigger] changes[i]).1.tags_changed
                ==> changes[i].1.annotation.tags_writable(),
    ensures
        after_changes(store, changes).all_tags_writable(),
    decreases changes.len(),
{
    if changes.len() > 0 {
        let earlier = changes.drop_last();
        assert forall|i: int| 0 <= i < earlier.len() && (
        #[trigger] earlier[i]).1.tags_changed implies earlier[i].1.annotation.tags_writable() by {
            assert(earlier[i] == changes[i]);
        }
        law_tags_stay_writable_over_a_run(store, earlier);
        law_tags_stay_writable(after_changes(store, earlier), changes.last().0, changes.last().1);
    }
}

/// What is looked up is what the store holds.
pub proof fn law_lookup_finds_what_is_held(store: StoreView, key: KeyView)
    ensures
        store.lookup(key) is Some <==> store.entries.contains_key(key),
        store.entries.contains_key(key) ==> store.lookup(key)->0 == store.entries[key],
{
}

/// A flagged member takes the value of the change in an entry that remains.
pub proof fn law_flagged_members_are_set(store: StoreView, key: KeyView, change: ChangeView)
    requires
        store.entries.contains_key(key) || store.entries.dom().len() < store.limit,
        store.applied(key, change).entries.contains_key(key),
    ensures
        change.label_changed ==> store.applied(key, change).entries[key].label
            == change.annotation.label,
        change.description_changed ==> store.applied(key, change).entries[key].description
            == change.annotation.description,
        change.tags_changed ==> store.applied(key, change).entries[key].tags
            == change.annotation.tags,
{
}

/// A member of a new entry that is not flagged is absent.
pub proof fn law_new_entry_has_only_flagged_members(
    store: StoreView,
    key: KeyView,
    change: ChangeView,
)
    requires
        !store.entries.contains_key(key),
        store.applied(key, change).entries.contains_key(key),
    ensures
        !change.label_changed ==> store.applied(key, change).entries[key].label is None,
        !change.description_changed ==> store.applied(key, change).entries[key].description is None,
        !change.tags_changed ==> forall|tag: Seq<char>|
            !(#[trigger] store.applied(key, change).entries[key].tags.contains_key(tag)),
{
}

/// A store with room refuses nothing, and none refuses a key that it holds. Only a new key in a
/// full store is refused.
pub proof fn law_only_a_full_store_refuses(store: StoreView, key: KeyView)
    ensures
        store.entries.dom().len() < store.limit ==> !store.refuses(key),
        store.entries.contains_key(key) ==> !store.refuses(key),
        store.entries.dom().len() >= store.limit && !store.entries.contains_key(key)
            ==> store.refuses(key),
{
}

/// A refused change leaves the store as it is, and no change moves the limit.
pub proof fn law_refused_change_does_nothing(store: StoreView, key: KeyView, change: ChangeView)
    ensures
        !store.entries.contains_key(key) && store.entries.dom().len() >= store.limit
            ==> store.applied(key, change) == store,
        store.applied(key, change).limit == store.limit,
{
}

/// An entry is there after a change exactly where a label, a description or a tag is left: what the
/// change gives of the members that it flags, and what was there of the others.
pub proof fn law_entry_is_kept_while_something_is_annotated(
    store: StoreView,
    key: KeyView,
    change: ChangeView,
)
    requires
        store.entries.contains_key(key) || store.entries.dom().len() < store.limit,
    ensures
        ({
            let was = |annotated: spec_fn(AnnotationView) -> bool|
                store.entries.contains_key(key) && annotated(store.entries[key]);
            let labelled = |annotation: AnnotationView| annotation.label is Some;
            let described = |annotation: AnnotationView| annotation.description is Some;
            let tagged = |annotation: AnnotationView|
                exists|tag: Seq<char>| #[trigger] annotation.tags.contains_key(tag);
            store.applied(key, change).entries.contains_key(key) <==> {
                ||| change.label_changed && labelled(change.annotation)
                ||| !change.label_changed && was(labelled)
                ||| change.description_changed && described(change.annotation)
                ||| !change.description_changed && was(described)
                ||| change.tags_changed && tagged(change.annotation)
                ||| !change.tags_changed && was(tagged)
            }
        }),
{
    let merged = store.merged(key, change);
    if merged.label is None && merged.description is None && forall|tag: Seq<char>|
        !(#[trigger] merged.tags.contains_key(tag)) {
        assert(merged.tags =~= Map::<Seq<char>, Seq<Seq<char>>>::empty());
        assert(merged =~= AnnotationView::nothing());
    } else if merged.label is None && merged.description is None {
        let tag = choose|tag: Seq<char>| #[trigger] merged.tags.contains_key(tag);
        assert(merged.tags.contains_key(tag));
        if change.tags_changed {
            assert(change.annotation.tags.contains_key(tag));
        } else if store.entries.contains_key(key) {
            assert(store.entries[key].tags.contains_key(tag));
        }
    }
}

/// A change adds one entry, takes one out, or leaves the number of entries as it was.
pub proof fn law_number_of_entries(store: StoreView, key: KeyView, change: ChangeView)
    requires
        store.entries.dom().finite(),
    ensures
        ({
            let before = store.entries;
            let after = store.applied(key, change).entries;
            &&& !before.contains_key(key) && after.contains_key(key) ==> after.dom().len()
                == before.dom().len() + 1
            &&& before.contains_key(key) && !after.contains_key(key) ==> after.dom().len()
                == before.dom().len() - 1
            &&& before.contains_key(key) == after.contains_key(key) ==> after.dom()
                == before.dom()
        }),
{
    assert(store.entries.remove(key).dom() =~= store.entries.dom().remove(key));
    assert(store.entries.insert(key, store.merged(key, change)).dom()
        =~= store.entries.dom().insert(key));
    if store.entries.contains_key(key) {
        assert(store.entries.dom().insert(key) =~= store.entries.dom());
    } else {
        assert(store.entries.dom().remove(key) =~= store.entries.dom());
    }
}

/// What a change gives is found again under its seed, its kind of resource and its name; a node or
/// a device, which has no name, is found under the empty one.
pub proof fn law_change_is_found_again(
    store: StoreView,
    seed: Seq<char>,
    change: AnnotationChange<'_>,
    name: Seq<char>,
)
    requires
        change.name matches Some(text) ==> name == text@,
        change.name is None ==> name == Seq::<char>::empty(),
        store.entries.dom().len() < store.limit || store.entries.contains_key(
            KeyView { seed, resource_type: change.resource_type, name },
        ),
    ensures
        ({
            let found = store.applied(
                KeyView { seed, resource_type: change.resource_type, name: change.key_name() },
                change@,
            ).lookup(KeyView { seed, resource_type: change.resource_type, name });
            &&& change.label_changed ==> (change.annotation.label matches Some(label)
                ==> found is Some && found->0.label == Some(label@))
            &&& change.description_changed ==> (change.annotation.description matches Some(text)
                ==> found is Some && found->0.description == Some(text@))
            &&& change.tags_changed && (exists|tag: Seq<char>| #[trigger]
                change.annotation.tags@.contains_key(tag)) ==> found is Some && found->0.tags
                == change.annotation.tags@
            &&& change.label_changed && change.annotation.label is None && found is Some
                ==> found->0.label is None
            &&& change.description_changed && change.annotation.description is None && found is Some
                ==> found->0.description is None
            &&& change.tags_changed && found is Some ==> found->0.tags == change.annotation.tags@
        }),
{
    let key = KeyView { seed, resource_type: change.resource_type, name };
    assert(change.key_name() =~= name);
    law_entry_is_kept_while_something_is_annotated(store, key, change@);
}

}
