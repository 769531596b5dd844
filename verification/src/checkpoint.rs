//! The checkpoint of a store: a list of records in order, and the store that such a list gives.

use crate::annotation::{
    has_read_only, is_first_read_only, lemma_first_read_only_exists, lemma_tags_finite,
    lemma_written_name_identifies, written_name, AnnotationView, ChangeView, ResourceType, Tags,
};
use crate::error::{
    duplicate_reason, failure, read_only_reason, resource_type_reason, version_reason,
    CheckpointError,
};
use crate::ordered_map::{contents, keys_distinct, lemma_contents_at, lemma_contents_push};
use crate::store::{after_changes, law_tags_stay_writable_over_a_run, KeyView, StoreView};
use crate::text::{
    all_plain, lemma_precedes_irreflexive, lemma_precedes_transitive, optional_text, precedes,
    quoted, same_text, shown,
};
use vstd::prelude::*;

verus! {

/// The version of the file that is written, and the only one that is read.
pub const CHECKPOINT_VERSION: u32 = 1;

/// What a record says.
#[verifier::ext_equal]
pub struct RecordView {
    pub seed: Seq<char>,
    pub resource_type: Seq<char>,
    pub name: Seq<char>,
    pub annotation: AnnotationView,
}

impl RecordView {
    /// The order of records: by seed, then by kind of resource, then by name.
    pub open spec fn before(self, other: Self) -> bool {
        ||| precedes(self.seed, other.seed)
        ||| self.seed == other.seed && precedes(self.resource_type, other.resource_type)
        ||| self.seed == other.seed && self.resource_type == other.resource_type && precedes(
            self.name,
            other.name,
        )
    }

    /// Both records are about the same entry.
    pub open spec fn same_entry(self, other: Self) -> bool {
        &&& self.seed == other.seed
        &&& self.resource_type == other.resource_type
        &&& self.name == other.name
    }
}

/// The record of the entry under `key`.
pub open spec fn record_of(key: KeyView, annotation: AnnotationView) -> RecordView {
    RecordView {
        seed: key.seed,
        resource_type: written_name(key.resource_type),
        name: key.name,
        annotation,
    }
}

/// `record` is the record of one of `entries`.
pub open spec fn records_entry(
    record: RecordView,
    entries: Map<KeyView, AnnotationView>,
) -> bool {
    exists|key: KeyView| #[trigger]
        entries.contains_key(key) && record == record_of(key, entries[key])
}

/// `records` are the records of `entries`, one for each and no others, in order.
pub open spec fn lists(records: Seq<RecordView>, entries: Map<KeyView, AnnotationView>) -> bool {
    &&& forall|i: int, j: int|
        0 <= i < j < records.len() ==> (#[trigger] records[i]).before(#[trigger] records[j])
    &&& forall|i: int| 0 <= i < records.len() ==> records_entry(#[trigger] records[i], entries)
    &&& forall|key: KeyView| #[trigger]
        entries.contains_key(key) ==> records.contains(record_of(key, entries[key]))
}

/// One entry as it stands in a checkpoint.
#[derive(Debug)]
pub struct CheckpointRecord {
    pub seed: String,
    pub resource_type: String,
    pub name: String,
    pub label: Option<String>,
    pub description: Option<String>,
    pub tags: Tags,
}

impl View for CheckpointRecord {
    type V = RecordView;

    open spec fn view(&self) -> RecordView {
        RecordView {
            seed: self.seed@,
            resource_type: self.resource_type@,
            name: self.name@,
            annotation: AnnotationView {
                label: optional_text(self.label),
                description: optional_text(self.description),
                tags: self.tags@,
            },
        }
    }
}

/// What a checkpoint file holds.
#[derive(Debug)]
pub struct CheckpointFile {
    pub version: u32,
    pub annotations: Vec<CheckpointRecord>,
}

impl CheckpointFile {
    /// The records in the order of the file.
    pub open spec fn records(&self) -> Seq<RecordView> {
        self.annotations@.map_values(|record: CheckpointRecord| record@)
    }
}

/// The kind of resource that is written as `name`.
pub open spec fn named_type(name: Seq<char>) -> Option<ResourceType> {
    if name == written_name(ResourceType::Node) {
        Some(ResourceType::Node)
    } else if name == written_name(ResourceType::Device) {
        Some(ResourceType::Device)
    } else if name == written_name(ResourceType::Source) {
        Some(ResourceType::Source)
    } else if name == written_name(ResourceType::Flow) {
        Some(ResourceType::Flow)
    } else if name == written_name(ResourceType::Sender) {
        Some(ResourceType::Sender)
    } else if name == written_name(ResourceType::Receiver) {
        Some(ResourceType::Receiver)
    } else {
        None
    }
}

/// The kind of resource with the given name.
pub fn resource_type_from_name(name: &str) -> (found: Result<ResourceType, CheckpointError>)
    ensures
        match found {
            Ok(resource_type) => named_type(name@) == Some(resource_type),
            Err(error) => named_type(name@) is None && error@ == resource_type_reason(
                shown(name@),
            ),
        },
{
    if same_text(name, "node") {
        Ok(ResourceType::Node)
    } else if same_text(name, "device") {
        Ok(ResourceType::Device)
    } else if same_text(name, "source") {
        Ok(ResourceType::Source)
    } else if same_text(name, "flow") {
        Ok(ResourceType::Flow)
    } else if same_text(name, "sender") {
        Ok(ResourceType::Sender)
    } else if same_text(name, "receiver") {
        Ok(ResourceType::Receiver)
    } else {
        Err(CheckpointError::unknown_resource_type(quoted(name).as_str()))
    }
}

/// A kind of resource is found again by its name, and by no other name.
pub proof fn law_names_of_resource_types(resource_type: ResourceType, name: Seq<char>)
    ensures
        named_type(name) == Some(resource_type) <==> name == written_name(resource_type),
{
    if named_type(name) is Some {
        assert(name == written_name(named_type(name)->0));
        if name == written_name(resource_type) {
            lemma_written_name_identifies(named_type(name)->0, resource_type);
        }
    }
}

/// The read-only key that is reported.
pub open spec fn first_read_only(tags: Map<Seq<char>, Seq<Seq<char>>>) -> Seq<char> {
    choose|key: Seq<char>| is_first_read_only(tags, key)
}

/// Why the record at place `i` is refused, where it is.
pub open spec fn fault(records: Seq<RecordView>, i: int, path: Seq<char>) -> Option<Seq<char>> {
    let record = records[i];
    if named_type(record.resource_type) is None {
        Some(resource_type_reason(shown(record.resource_type)))
    } else if has_read_only(record.annotation.tags) {
        Some(read_only_reason(shown(first_read_only(record.annotation.tags)), path))
    } else if exists|j: int| 0 <= j < i && (#[trigger] records[j]).same_entry(record) {
        Some(duplicate_reason(path))
    } else {
        None
    }
}

/// No record up to place `n` is refused.
pub open spec fn faultless(records: Seq<RecordView>, n: int, path: Seq<char>) -> bool {
    forall|i: int| 0 <= i < n ==> (#[trigger] fault(records, i, path)) is None
}

/// The key of the entry that a record is about.
pub open spec fn key_of(record: RecordView) -> KeyView {
    KeyView {
        seed: record.seed,
        resource_type: named_type(record.resource_type)->0,
        name: record.name,
    }
}

/// The entries that a list of records gives.
pub open spec fn entries_of(records: Seq<RecordView>) -> Map<KeyView, AnnotationView> {
    contents(pairs_of(records))
}

/// The keys and annotations of a list of records.
pub open spec fn pairs_of(records: Seq<RecordView>) -> Seq<(KeyView, AnnotationView)> {
    records.map_values(|record: RecordView| (key_of(record), record.annotation))
}

/// Records about known kinds of resource with the same key are about the same entry.
proof fn lemma_key_identifies(a: RecordView, b: RecordView)
    requires
        named_type(a.resource_type) is Some,
        named_type(b.resource_type) is Some,
    ensures
        key_of(a) == key_of(b) <==> a.same_entry(b),
{
    law_names_of_resource_types(key_of(a).resource_type, a.resource_type);
    law_names_of_resource_types(key_of(b).resource_type, b.resource_type);
}

/// Records that are not refused have distinct keys.
pub proof fn lemma_faultless_distinct(records: Seq<RecordView>, n: int, path: Seq<char>)
    requires
        0 <= n <= records.len(),
        faultless(records, n, path),
    ensures
        keys_distinct(pairs_of(records.take(n))),
{
    let pairs = pairs_of(records.take(n));
    assert forall|i: int, j: int|
        0 <= i < pairs.len() && 0 <= j < pairs.len() && #[trigger] pairs[i].0
            == #[trigger] pairs[j].0 implies i == j by {
        assert(fault(records, i, path) is None);
        assert(fault(records, j, path) is None);
        lemma_key_identifies(records[i], records[j]);
        lemma_key_identifies(records[j], records[i]);
    }
}

/// What the record at place `i` adds, where its kind of resource and its tags are in order.
pub proof fn lemma_restore_next(records: Seq<RecordView>, i: int, path: Seq<char>)
    requires
        0 <= i < records.len(),
        faultless(records, i, path),
        named_type(records[i].resource_type) is Some,
        !has_read_only(records[i].annotation.tags),
    ensures
        entries_of(records.take(i)).contains_key(key_of(records[i])) ==> fault(records, i, path)
            == Some(duplicate_reason(path)),
        !entries_of(records.take(i)).contains_key(key_of(records[i])) ==> fault(records, i, path)
            is None && entries_of(records.take(i + 1)) == entries_of(records.take(i)).insert(
            key_of(records[i]),
            records[i].annotation,
        ),
{
    let before = records.take(i);
    let key = key_of(records[i]);
    lemma_faultless_distinct(records, i, path);
    if entries_of(before).contains_key(key) {
        let j = choose|j: int| 0 <= j < pairs_of(before).len() && #[trigger] pairs_of(before)[j].0
            == key;
        assert(fault(records, j, path) is None);
        lemma_key_identifies(records[j], records[i]);
        assert(records[j].same_entry(records[i]));
    } else {
        if exists|j: int| 0 <= j < i && (#[trigger] records[j]).same_entry(records[i]) {
            let j = choose|j: int| 0 <= j < i && (#[trigger] records[j]).same_entry(records[i]);
            lemma_key_identifies(records[j], records[i]);
            assert(pairs_of(before)[j].0 == key);
        }
        lemma_contents_push(pairs_of(before), key, records[i].annotation);
        assert(pairs_of(records.take(i + 1)) =~= pairs_of(before).push(
            (key, records[i].annotation),
        ));
    }
}

/// What came of reading a checkpoint file.
#[derive(Debug)]
pub enum CheckpointRead {
    /// There is no file.
    Missing,
    /// The file cannot be read.
    Unreadable { cause: String },
    /// What the file holds is no checkpoint.
    Malformed { cause: String },
    /// The file was read.
    Parsed { file: CheckpointFile },
}

/// What a list of records gives: the entries, or the reason why the first bad record is refused.
pub open spec fn restores(
    records: Seq<RecordView>,
    path: Seq<char>,
    result: Result<Map<KeyView, AnnotationView>, Seq<char>>,
) -> bool {
    match result {
        Ok(entries) => faultless(records, records.len() as int, path) && entries == entries_of(
            records,
        ),
        Err(reason) => exists|i: int|
            0 <= i < records.len() && faultless(records, i, path) && #[trigger] fault(
                records,
                i,
                path,
            ) == Some(reason),
    }
}

/// What a read of the file at `path` gives: the entries, or the reason why there are none.
pub open spec fn gives(
    read: CheckpointRead,
    path: Seq<char>,
    result: Result<Map<KeyView, AnnotationView>, Seq<char>>,
) -> bool {
    match read {
        CheckpointRead::Missing => result == Ok::<Map<KeyView, AnnotationView>, Seq<char>>(
            Map::empty(),
        ),
        CheckpointRead::Unreadable { cause } => result == Err::<
            Map<KeyView, AnnotationView>,
            Seq<char>,
        >(failure("read"@, path, cause@)),
        CheckpointRead::Malformed { cause } => result == Err::<
            Map<KeyView, AnnotationView>,
            Seq<char>,
        >(failure("parse"@, path, cause@)),
        CheckpointRead::Parsed { file } => if file.version != CHECKPOINT_VERSION {
            result == Err::<Map<KeyView, AnnotationView>, Seq<char>>(
                version_reason(file.version, path),
            )
        } else {
            restores(file.records(), path, result)
        },
    }
}

proof fn lemma_record_irreflexive(a: RecordView)
    ensures
        !a.before(a),
{
    lemma_precedes_irreflexive(a.seed);
    lemma_precedes_irreflexive(a.resource_type);
    lemma_precedes_irreflexive(a.name);
}

proof fn lemma_record_asymmetric(a: RecordView, b: RecordView)
    requires
        a.before(b),
    ensures
        !b.before(a),
        !a.same_entry(b),
{
    lemma_record_irreflexive(a);
    if precedes(a.seed, b.seed) && precedes(b.seed, a.seed) {
        lemma_precedes_transitive(a.seed, b.seed, a.seed);
    }
    if precedes(a.resource_type, b.resource_type) && precedes(b.resource_type, a.resource_type) {
        lemma_precedes_transitive(a.resource_type, b.resource_type, a.resource_type);
    }
    if precedes(a.name, b.name) && precedes(b.name, a.name) {
        lemma_precedes_transitive(a.name, b.name, a.name);
    }
}

/// One read gives one result.
pub proof fn law_read_is_determined(
    read: CheckpointRead,
    path: Seq<char>,
    a: Result<Map<KeyView, AnnotationView>, Seq<char>>,
    b: Result<Map<KeyView, AnnotationView>, Seq<char>>,
)
    requires
        gives(read, path, a),
        gives(read, path, b),
    ensures
        a == b,
{
    if let CheckpointRead::Parsed { file } = read {
        let records = file.records();
        if file.version == CHECKPOINT_VERSION && a is Err && b is Err {
            let i = choose|i: int|
                0 <= i < records.len() && faultless(records, i, path) && #[trigger] fault(
                    records,
                    i,
                    path,
                ) == Some(a->Err_0);
            let j = choose|j: int|
                0 <= j < records.len() && faultless(records, j, path) && #[trigger] fault(
                    records,
                    j,
                    path,
                ) == Some(b->Err_0);
            assert(!(i < j) && !(j < i));
        }
    }
}

/// A store has one checkpoint: which records it has, and in what order, depends on its entries
/// alone.
pub proof fn law_checkpoint_is_determined(
    a: Seq<RecordView>,
    b: Seq<RecordView>,
    entries: Map<KeyView, AnnotationView>,
)
    requires
        lists(a, entries),
        lists(b, entries),
    ensures
        a == b,
{
    lemma_lists_agree(a, b, entries, a.len() as int);
    lemma_lists_agree(b, a, entries, b.len() as int);
    assert(a =~= b);
}

/// Lists of the same entries agree on their first `n` records.
proof fn lemma_lists_agree(
    a: Seq<RecordView>,
    b: Seq<RecordView>,
    entries: Map<KeyView, AnnotationView>,
    n: int,
)
    requires
        lists(a, entries),
        lists(b, entries),
        0 <= n <= a.len(),
    ensures
        n <= b.len(),
        forall|i: int| 0 <= i < n ==> a[i] == b[i],
    decreases n,
{
    if n > 0 {
        let i = n - 1;
        lemma_lists_agree(a, b, entries, i);
        assert(records_entry(a[i], entries));
        let k = choose|k: int| 0 <= k < b.len() && b[k] == a[i];
        if k < i {
            assert(a[k].before(a[i]));
            lemma_record_irreflexive(a[i]);
        }
        assert(records_entry(b[i], entries));
        let m = choose|m: int| 0 <= m < a.len() && a[m] == b[i];
        if m < i {
            assert(b[m].before(b[i]));
            lemma_record_irreflexive(b[i]);
        }
        if i < k && i < m {
            assert(b[i].before(b[k]));
            assert(a[i].before(a[m]));
            lemma_record_asymmetric(a[i], b[i]);
        }
    }
}

/// What is written as a checkpoint is read back as the store that it was written for.
pub proof fn law_checkpoint_round_trip(store: StoreView, file: CheckpointFile, path: Seq<char>)
    requires
        store.all_tags_writable(),
        file.version == CHECKPOINT_VERSION,
        lists(file.records(), store.entries),
    ensures
        gives(CheckpointRead::Parsed { file }, path, Ok(store.entries)),
{
    lemma_listed_faultless(file.records(), store, path);
    lemma_listed_entries(file.records(), store.entries, path);
}

proof fn lemma_listed_faultless(records: Seq<RecordView>, store: StoreView, path: Seq<char>)
    requires
        store.all_tags_writable(),
        lists(records, store.entries),
    ensures
        faultless(records, records.len() as int, path),
{
    assert forall|i: int| 0 <= i < records.len() implies (#[trigger] fault(records, i, path))
        is None by {
        lemma_recorded(records, i, store.entries);
        let record = records[i];
        if exists|j: int| 0 <= j < i && (#[trigger] records[j]).same_entry(record) {
            let j = choose|j: int| 0 <= j < i && (#[trigger] records[j]).same_entry(record);
            assert(records[j].before(records[i]));
            lemma_record_asymmetric(records[j], records[i]);
        }
    }
}

proof fn lemma_listed_entries(
    records: Seq<RecordView>,
    entries: Map<KeyView, AnnotationView>,
    path: Seq<char>,
)
    requires
        lists(records, entries),
        faultless(records, records.len() as int, path),
    ensures
        entries_of(records) == entries,
{
    let n = records.len() as int;
    lemma_faultless_distinct(records, n, path);
    assert(records.take(n) =~= records);
    let pairs = pairs_of(records);
    let read = contents(pairs);
    assert forall|key: KeyView| #[trigger] read.contains_key(key) implies entries.contains_key(key)
        && read[key] == entries[key] by {
        let i = choose|i: int| 0 <= i < pairs.len() && #[trigger] pairs[i].0 == key;
        lemma_recorded(records, i, entries);
        lemma_contents_at(pairs, i);
    }
    assert forall|key: KeyView| #[trigger] entries.contains_key(key) implies read.contains_key(
        key,
    ) by {
        let record = record_of(key, entries[key]);
        assert(records.contains(record));
        let i = choose|i: int| 0 <= i < records.len() && records[i] == record;
        law_names_of_resource_types(key.resource_type, record.resource_type);
        assert(pairs[i].0 == key);
    }
    assert(read =~= entries);
}

/// `key` is that of an entry with a read-only tag, and comes before the key of every other such
/// entry.
pub open spec fn is_first_with_read_only(
    entries: Map<KeyView, AnnotationView>,
    key: KeyView,
) -> bool {
    &&& entries.contains_key(key)
    &&& has_read_only(entries[key].tags)
    &&& forall|other: KeyView| #[trigger]
        entries.contains_key(other) && has_read_only(entries[other].tags) && other != key
            ==> key.before(other)
}

/// A checkpoint of entries with a read-only tag is not read back: the reason names the first
/// read-only tag of the first such entry.
pub proof fn law_read_only_tag_is_not_read_back(
    store: StoreView,
    file: CheckpointFile,
    path: Seq<char>,
    result: Result<Map<KeyView, AnnotationView>, Seq<char>>,
)
    requires
        !store.all_tags_writable(),
        lists(file.records(), store.entries),
        gives(CheckpointRead::Parsed { file }, path, result),
    ensures
        result is Err,
        file.version != CHECKPOINT_VERSION ==> result == Err::<
            Map<KeyView, AnnotationView>,
            Seq<char>,
        >(version_reason(file.version, path)),
        file.version == CHECKPOINT_VERSION ==> exists|key: KeyView, tag: Seq<char>|
            #[trigger] is_first_with_read_only(store.entries, key) && #[trigger] is_first_read_only(
                store.entries[key].tags,
                tag,
            ) && result == Err::<Map<KeyView, AnnotationView>, Seq<char>>(
                read_only_reason(shown(tag), path),
            ),
{
    if file.version == CHECKPOINT_VERSION {
        let records = file.records();
        let entries = store.entries;
        let key = choose|key: KeyView| #[trigger]
            entries.contains_key(key) && !entries[key].tags_writable();
        let record = record_of(key, entries[key]);
        assert(records.contains(record));
        let i = choose|i: int| 0 <= i < records.len() && records[i] == record;
        assert(fault(records, i, path) is Some);
        let first = choose|i: int|
            0 <= i < records.len() && faultless(records, i, path) && #[trigger] fault(
                records,
                i,
                path,
            ) == Some(result->Err_0);
        lemma_first_fault(records, entries, first, path);
        lemma_tags_finite(file.annotations@[first].tags);
        law_read_only_tag_is_named(records, first, path);
        let tag = first_read_only(records[first].annotation.tags);
        assert(is_first_with_read_only(entries, key_of(records[first])));
        assert(is_first_read_only(entries[key_of(records[first])].tags, tag));
    }
}

/// The first record of a checkpoint that is refused is that of the first entry with a read-only
/// tag.
proof fn lemma_first_fault(
    records: Seq<RecordView>,
    entries: Map<KeyView, AnnotationView>,
    i: int,
    path: Seq<char>,
)
    requires
        lists(records, entries),
        0 <= i < records.len(),
        faultless(records, i, path),
        fault(records, i, path) is Some,
    ensures
        named_type(records[i].resource_type) is Some,
        has_read_only(records[i].annotation.tags),
        entries.contains_key(key_of(records[i])),
        records[i].annotation == entries[key_of(records[i])],
        is_first_with_read_only(entries, key_of(records[i])),
{
    let key = key_of(records[i]);
    lemma_recorded(records, i, entries);
    law_names_of_resource_types(key.resource_type, records[i].resource_type);
    if exists|j: int| 0 <= j < i && (#[trigger] records[j]).same_entry(records[i]) {
        let j = choose|j: int| 0 <= j < i && (#[trigger] records[j]).same_entry(records[i]);
        assert(records[j].before(records[i]));
        lemma_record_asymmetric(records[j], records[i]);
    }
    assert forall|other: KeyView| #[trigger]
        entries.contains_key(other) && has_read_only(entries[other].tags) && other
            != key implies key.before(other) by {
        let record = record_of(other, entries[other]);
        assert(records.contains(record));
        let j = choose|j: int| 0 <= j < records.len() && records[j] == record;
        law_names_of_resource_types(other.resource_type, record.resource_type);
        assert(key_of(record) == other);
        if j < i {
            assert(fault(records, j, path) is None);
        } else {
            assert(records[i].before(records[j]));
            if written_name(key.resource_type) == written_name(other.resource_type) {
                lemma_written_name_identifies(key.resource_type, other.resource_type);
            }
        }
    }
}

/// What the store does not hold is not written: a forgotten entry is not restored.
pub proof fn law_absent_entry_is_not_written(
    records: Seq<RecordView>,
    entries: Map<KeyView, AnnotationView>,
    key: KeyView,
    i: int,
)
    requires
        lists(records, entries),
        !entries.contains_key(key),
        0 <= i < records.len(),
    ensures
        key_of(records[i]) != key,
{
    lemma_recorded(records, i, entries);
}

/// The record at place `i` has the key and the annotation of one of the entries.
proof fn lemma_recorded(records: Seq<RecordView>, i: int, entries: Map<KeyView, AnnotationView>)
    requires
        lists(records, entries),
        0 <= i < records.len(),
    ensures
        named_type(records[i].resource_type) is Some,
        entries.contains_key(key_of(records[i])),
        records[i].annotation == entries[key_of(records[i])],
{
    assert(records_entry(records[i], entries));
    let key = choose|key: KeyView| #[trigger]
        entries.contains_key(key) && records[i] == record_of(key, entries[key]);
    law_names_of_resource_types(key.resource_type, records[i].resource_type);
    assert(key_of(records[i]) == key);
}

/// A store that was read has only writable tags.
pub proof fn law_restored_tags_are_writable(
    read: CheckpointRead,
    path: Seq<char>,
    entries: Map<KeyView, AnnotationView>,
    limit: nat,
)
    requires
        gives(read, path, Ok(entries)),
    ensures
        (StoreView { entries, limit }).all_tags_writable(),
{
    if let CheckpointRead::Parsed { file } = read {
        let records = file.records();
        let n = records.len() as int;
        assert(records.take(n) =~= records);
        lemma_faultless_distinct(records, n, path);
        assert forall|key: KeyView| #[trigger]
            entries.contains_key(key) implies entries[key].tags_writable() by {
            let pairs = pairs_of(records);
            let i = choose|i: int| 0 <= i < pairs.len() && #[trigger] pairs[i].0 == key;
            lemma_contents_at(pairs, i);
            assert(fault(records, i, path) is None);
        }
    }
}

/// Annotations survive a restart: a store that was opened, changed with writable tags and written
/// down is opened again with the same entries.
pub proof fn law_annotations_survive_restart(
    read: CheckpointRead,
    path: Seq<char>,
    entries: Map<KeyView, AnnotationView>,
    limit: nat,
    changes: Seq<(KeyView, ChangeView)>,
    file: CheckpointFile,
)
    requires
        gives(read, path, Ok(entries)),
        forall|i: int|
            0 <= i < changes.len() && (#[trigger] changes[i]).1.tags_changed
                ==> changes[i].1.annotation.tags_writable(),
        file.version == CHECKPOINT_VERSION,
        lists(file.records(), after_changes(StoreView { entries, limit }, changes).entries),
    ensures
        gives(
            CheckpointRead::Parsed { file },
            path,
            Ok(after_changes(StoreView { entries, limit }, changes).entries),
        ),
{
    law_restored_tags_are_writable(read, path, entries, limit);
    law_tags_stay_writable_over_a_run(StoreView { entries, limit }, changes);
    law_checkpoint_round_trip(
        after_changes(StoreView { entries, limit }, changes),
        file,
        path,
    );
}

/// A store that was opened and written down is opened again with the same entries, wherever the
/// file then is and whatever the limits are, and it is written down as before.
pub proof fn law_reopened_store_is_the_same(
    read: CheckpointRead,
    path: Seq<char>,
    store: StoreView,
    file: CheckpointFile,
    later_path: Seq<char>,
    reopened: Result<StoreView, Seq<char>>,
)
    requires
        gives(read, path, Ok(store.entries)),
        file.version == CHECKPOINT_VERSION,
        lists(file.records(), store.entries),
        match reopened {
            Ok(later) => gives(CheckpointRead::Parsed { file }, later_path, Ok(later.entries)),
            Err(reason) => gives(CheckpointRead::Parsed { file }, later_path, Err(reason)),
        },
    ensures
        reopened is Ok,
        reopened->Ok_0.entries == store.entries,
        forall|again: Seq<RecordView>| #[trigger]
            lists(again, reopened->Ok_0.entries) ==> again == file.records(),
{
    law_restored_tags_are_writable(read, path, store.entries, store.limit);
    law_checkpoint_round_trip(store, file, later_path);
    let result = match reopened {
        Ok(later) => Ok(later.entries),
        Err(reason) => Err(reason),
    };
    law_read_is_determined(CheckpointRead::Parsed { file }, later_path, result, Ok(store.entries));
    assert forall|again: Seq<RecordView>| #[trigger] lists(again, store.entries) implies again
        == file.records() by {
        law_checkpoint_is_determined(again, file.records(), store.entries);
    }
}

/// `part` stands somewhere in `text`.
pub open spec fn holds(text: Seq<char>, part: Seq<char>) -> bool {
    exists|before: Seq<char>, after: Seq<char>| text == #[trigger] (before + part + after)
}

/// A record with a read-only tag is refused, and the reason names the tag: in quotes, and as it is
/// where it is plain text.
pub proof fn law_read_only_tag_is_named(records: Seq<RecordView>, i: int, path: Seq<char>)
    requires
        0 <= i < records.len(),
        named_type(records[i].resource_type) is Some,
        records[i].annotation.tags.dom().finite(),
        has_read_only(records[i].annotation.tags),
    ensures
        ({
            let tags = records[i].annotation.tags;
            let key = first_read_only(tags);
            &&& is_first_read_only(tags, key)
            &&& fault(records, i, path) == Some(read_only_reason(shown(key), path))
            &&& all_plain(key) ==> holds(read_only_reason(shown(key), path), key)
        }),
{
    let tags = records[i].annotation.tags;
    let key = first_read_only(tags);
    lemma_first_read_only_exists(tags);
    if all_plain(key) {
        let before = "read-only annotation tag "@ + seq!['"'];
        let after = seq!['"'] + " in "@ + path;
        assert(read_only_reason(shown(key), path) =~= before + key + after);
    }
}

/// A file in which the first bad record is one with a read-only tag is refused as a whole, and the
/// reason names a read-only tag of that record.
pub proof fn law_file_with_read_only_tag_is_refused(
    file: CheckpointFile,
    i: int,
    path: Seq<char>,
    result: Result<Map<KeyView, AnnotationView>, Seq<char>>,
)
    requires
        file.version == CHECKPOINT_VERSION,
        0 <= i < file.records().len(),
        faultless(file.records(), i, path),
        named_type(file.records()[i].resource_type) is Some,
        has_read_only(file.records()[i].annotation.tags),
        gives(CheckpointRead::Parsed { file }, path, result),
    ensures
        ({
            let tags = file.records()[i].annotation.tags;
            let key = first_read_only(tags);
            &&& is_first_read_only(tags, key)
            &&& result == Err::<Map<KeyView, AnnotationView>, Seq<char>>(
                read_only_reason(shown(key), path),
            )
            &&& all_plain(key) ==> holds(result->Err_0, key)
        }),
{
    let records = file.records();
    let key = first_read_only(records[i].annotation.tags);
    lemma_tags_finite(file.annotations@[i].tags);
    law_read_only_tag_is_named(records, i, path);
    assert(restores(records, path, Err(read_only_reason(shown(key), path))));
    law_read_is_determined(
        CheckpointRead::Parsed { file },
        path,
        result,
        Err(read_only_reason(shown(key), path)),
    );
}

}
