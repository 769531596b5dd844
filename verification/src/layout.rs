//! The checkpoint file by the texts in it: which files are read and what they give, which are
//! refused and with which words, and what is written.

use crate::annotation::{
    has_read_only, is_read_only, law_only_reserved_prefixes_are_read_only,
    law_reserved_prefixes_are_read_only, lemma_tags_finite, written_name, AnnotationView,
    ResourceType,
};
use crate::checkpoint::{
    entries_of, fault, faultless, first_read_only, gives, key_of, law_names_of_resource_types,
    law_read_is_determined, law_read_only_tag_is_named, lemma_faultless_distinct, lists,
    named_type, pairs_of, record_of, records_entry, restores, CheckpointFile, CheckpointRead,
    CheckpointRecord,
};
use crate::ordered_map::lemma_contents_at;
use crate::store::KeyView;
use crate::text::{decimal, lemma_precedes_irreflexive, precedes, shown};
use vstd::prelude::*;

verus! {

/// `text` is the word for `kind` in a file.
pub open spec fn stands_for(text: Seq<char>, kind: ResourceType) -> bool {
    ||| kind is Node && text == "node"@
    ||| kind is Device && text == "device"@
    ||| kind is Source && text == "source"@
    ||| kind is Flow && text == "flow"@
    ||| kind is Sender && text == "sender"@
    ||| kind is Receiver && text == "receiver"@
}

/// `text` is `prefix` with something behind it, or nothing.
pub open spec fn extends(text: Seq<char>, prefix: Seq<char>) -> bool {
    exists|rest: Seq<char>| text == #[trigger] (prefix + rest)
}

/// `key` belongs to the system, not to the user.
pub open spec fn reserved(key: Seq<char>) -> bool {
    ||| extends(key, "urn:x-nmos:tag:asset:"@)
    ||| extends(key, "urn:x-nmos:tag:grouphint/"@)
    ||| extends(key, "urn:x-nvnmos:tag:"@)
}

impl CheckpointRecord {
    /// The record is about a resource of a known kind.
    pub open spec fn has_known_kind(&self) -> bool {
        exists|kind: ResourceType| #[trigger] stands_for(self.resource_type@, kind)
    }

    /// The record has a tag that belongs to the system.
    pub open spec fn has_reserved_tag(&self) -> bool {
        exists|tag: Seq<char>| #[trigger] self.tags@.contains_key(tag) && reserved(tag)
    }

    /// The record is about the same resource as `other`.
    pub open spec fn repeats(&self, other: &CheckpointRecord) -> bool {
        &&& self.seed@ == other.seed@
        &&& self.resource_type@ == other.resource_type@
        &&& self.name@ == other.name@
    }

    /// `annotation` is what the record says of its resource.
    pub open spec fn tells(&self, annotation: AnnotationView) -> bool {
        &&& self.label matches Some(label) ==> annotation.label == Some(label@)
        &&& self.label is None ==> annotation.label is None
        &&& self.description matches Some(text) ==> annotation.description == Some(text@)
        &&& self.description is None ==> annotation.description is None
        &&& annotation.tags == self.tags@
    }
}

impl CheckpointFile {
    /// The record at place `i` is about a resource that a record before it is about.
    pub open spec fn repeated(&self, i: int) -> bool {
        exists|j: int|
            0 <= j < i && self.annotations@[i].repeats(#[trigger] &self.annotations@[j])
    }

    /// The record at place `i` cannot be used.
    pub open spec fn bad(&self, i: int) -> bool {
        ||| !self.annotations@[i].has_known_kind()
        ||| self.annotations@[i].has_reserved_tag()
        ||| self.repeated(i)
    }
}

/// Each kind of resource has its word, in what is written and in what is read.
pub proof fn law_words_for_kinds(text: Seq<char>, kind: ResourceType)
    ensures
        written_name(kind) == text <==> stands_for(text, kind),
        named_type(text) == Some(kind) <==> stands_for(text, kind),
{
    law_names_of_resource_types(kind, text);
}

/// A key is read-only exactly where it belongs to the system.
pub proof fn law_read_only_is_reserved(key: Seq<char>)
    ensures
        is_read_only(key) <==> reserved(key),
{
    if reserved(key) {
        let prefix = if extends(key, "urn:x-nmos:tag:asset:"@) {
            "urn:x-nmos:tag:asset:"@
        } else if extends(key, "urn:x-nmos:tag:grouphint/"@) {
            "urn:x-nmos:tag:grouphint/"@
        } else {
            "urn:x-nvnmos:tag:"@
        };
        let rest = choose|rest: Seq<char>| key == #[trigger] (prefix + rest);
        law_reserved_prefixes_are_read_only(rest);
    } else {
        law_only_reserved_prefixes_are_read_only(key);
    }
}

/// What the file holds at place `i`, and why it is refused there.
proof fn lemma_record_at(file: CheckpointFile, i: int, path: Seq<char>)
    requires
        0 <= i < file.annotations@.len(),
    ensures
        file.records().len() == file.annotations@.len(),
        file.records()[i] == file.annotations@[i]@,
        named_type(file.records()[i].resource_type) is Some
            <==> file.annotations@[i].has_known_kind(),
        has_read_only(file.records()[i].annotation.tags)
            <==> file.annotations@[i].has_reserved_tag(),
        fault(file.records(), i, path) is Some <==> file.bad(i),
{
    let records = file.records();
    let record = file.annotations@[i];
    assert(records[i] == record@);
    if let Some(kind) = named_type(record.resource_type@) {
        law_words_for_kinds(record.resource_type@, kind);
    }
    if record.has_known_kind() {
        let kind = choose|kind: ResourceType| #[trigger] stands_for(record.resource_type@, kind);
        law_words_for_kinds(record.resource_type@, kind);
    }
    assert forall|tag: Seq<char>| #[trigger] record.tags@.contains_key(tag) implies is_read_only(
        tag,
    ) == reserved(tag) by {
        law_read_only_is_reserved(tag);
    }
    if file.repeated(i) {
        let j = choose|j: int|
            0 <= j < i && record.repeats(#[trigger] &file.annotations@[j]);
        assert(records[j].same_entry(records[i]));
    }
    if exists|j: int| 0 <= j < i && (#[trigger] records[j]).same_entry(records[i]) {
        let j = choose|j: int| 0 <= j < i && (#[trigger] records[j]).same_entry(records[i]);
        assert(record.repeats(&file.annotations@[j]));
    }
}

proof fn lemma_good_up_to(file: CheckpointFile, n: int, path: Seq<char>)
    requires
        0 <= n <= file.annotations@.len(),
    ensures
        faultless(file.records(), n, path) <==> forall|i: int| 0 <= i < n ==> !file.bad(i),
{
    assert forall|i: int| 0 <= i < n implies ((#[trigger] fault(file.records(), i, path)) is Some
        <==> file.bad(i)) by {
        lemma_record_at(file, i, path);
    }
    if faultless(file.records(), n, path) {
        assert forall|i: int| 0 <= i < n implies !file.bad(i) by {
            assert(fault(file.records(), i, path) is None);
        }
    }
}

/// Where there is no file, the store begins empty.
pub proof fn law_missing_file_gives_an_empty_store(
    path: Seq<char>,
    result: Result<Map<KeyView, AnnotationView>, Seq<char>>,
)
    requires
        gives(CheckpointRead::Missing, path, result),
    ensures
        result is Ok,
        forall|key: KeyView| !(#[trigger] result->Ok_0.contains_key(key)),
{
}

/// A file that is there but cannot be read gives no store, and the reason says why.
pub proof fn law_unreadable_file_gives_no_store(
    cause: String,
    path: Seq<char>,
    result: Result<Map<KeyView, AnnotationView>, Seq<char>>,
)
    requires
        gives(CheckpointRead::Unreadable { cause }, path, result),
    ensures
        result == Err::<Map<KeyView, AnnotationView>, Seq<char>>(
            "failed to read "@ + path + ": "@ + cause@,
        ),
{
    lemma_failed_to();
}

/// A file that holds no checkpoint gives no store, whatever is wrong with it, and the reason says
/// why.
pub proof fn law_malformed_file_gives_no_store(
    cause: String,
    path: Seq<char>,
    result: Result<Map<KeyView, AnnotationView>, Seq<char>>,
)
    requires
        gives(CheckpointRead::Malformed { cause }, path, result),
    ensures
        result == Err::<Map<KeyView, AnnotationView>, Seq<char>>(
            "failed to parse "@ + path + ": "@ + cause@,
        ),
{
    lemma_failed_to();
}

proof fn lemma_failed_to()
    ensures
        "failed to "@ + "read"@ + " "@ == "failed to read "@,
        "failed to "@ + "parse"@ + " "@ == "failed to parse "@,
{
    reveal_strlit("failed to ");
    reveal_strlit("read");
    reveal_strlit("parse");
    reveal_strlit(" ");
    reveal_strlit("failed to read ");
    reveal_strlit("failed to parse ");
    assert("failed to "@ + "read"@ + " "@ =~= "failed to read "@);
    assert("failed to "@ + "parse"@ + " "@ =~= "failed to parse "@);
}

/// Only files of version 1 are read.
pub proof fn law_other_version_gives_no_store(
    file: CheckpointFile,
    path: Seq<char>,
    result: Result<Map<KeyView, AnnotationView>, Seq<char>>,
)
    requires
        gives(CheckpointRead::Parsed { file }, path, result),
        file.version != 1,
    ensures
        result == Err::<Map<KeyView, AnnotationView>, Seq<char>>(
            "unsupported version "@ + decimal(file.version as nat) + " in "@ + path,
        ),
{
}

/// A file with a bad record gives no store, wherever in the file the record is.
pub proof fn law_bad_record_gives_no_store(
    file: CheckpointFile,
    i: int,
    path: Seq<char>,
    result: Result<Map<KeyView, AnnotationView>, Seq<char>>,
)
    requires
        gives(CheckpointRead::Parsed { file }, path, result),
        0 <= i < file.annotations@.len(),
        file.bad(i),
    ensures
        result is Err,
{
    lemma_record_at(file, i, path);
}

/// A file with a tag that begins with a reserved prefix gives no store.
pub proof fn law_reserved_tag_gives_no_store(
    file: CheckpointFile,
    i: int,
    rest: Seq<char>,
    path: Seq<char>,
    result: Result<Map<KeyView, AnnotationView>, Seq<char>>,
)
    requires
        gives(CheckpointRead::Parsed { file }, path, result),
        0 <= i < file.annotations@.len(),
        ({
            let tags = file.annotations@[i].tags@;
            ||| tags.contains_key("urn:x-nmos:tag:asset:"@ + rest)
            ||| tags.contains_key("urn:x-nmos:tag:grouphint/"@ + rest)
            ||| tags.contains_key("urn:x-nvnmos:tag:"@ + rest)
        }),
    ensures
        result is Err,
{
    let tags = file.annotations@[i].tags@;
    let tag = if tags.contains_key("urn:x-nmos:tag:asset:"@ + rest) {
        "urn:x-nmos:tag:asset:"@ + rest
    } else if tags.contains_key("urn:x-nmos:tag:grouphint/"@ + rest) {
        "urn:x-nmos:tag:grouphint/"@ + rest
    } else {
        "urn:x-nvnmos:tag:"@ + rest
    };
    assert(reserved(tag));
    assert(tags.contains_key(tag));
    law_bad_record_gives_no_store(file, i, path, result);
}

/// The reason is that of the first bad record. A kind that is not known is reported before a
/// reserved tag, and that before a record that repeats another.
pub proof fn law_first_bad_record_is_reported(
    file: CheckpointFile,
    i: int,
    path: Seq<char>,
    result: Result<Map<KeyView, AnnotationView>, Seq<char>>,
)
    requires
        gives(CheckpointRead::Parsed { file }, path, result),
        file.version == 1,
        0 <= i < file.annotations@.len(),
        forall|j: int| 0 <= j < i ==> !file.bad(j),
        file.bad(i),
    ensures
        result is Err,
        ({
            let record = file.annotations@[i];
            let reason = result->Err_0;
            if !record.has_known_kind() {
                reason == "unknown resource_type "@ + shown(record.resource_type@)
            } else if record.has_reserved_tag() {
                exists|tag: Seq<char>|
                    {
                        &&& #[trigger] record.tags@.contains_key(tag)
                        &&& reserved(tag)
                        &&& forall|other: Seq<char>| #[trigger]
                            record.tags@.contains_key(other) && reserved(other) && other != tag
                                ==> precedes(tag, other)
                        &&& reason == "read-only annotation tag "@ + shown(tag) + " in "@ + path
                    }
            } else {
                reason == "duplicate annotation in "@ + path
            }
        }),
{
    let records = file.records();
    let record = file.annotations@[i];
    lemma_record_at(file, i, path);
    lemma_good_up_to(file, i, path);
    let reason = fault(records, i, path)->0;
    assert(restores(records, path, Err(reason)));
    law_read_is_determined(CheckpointRead::Parsed { file }, path, result, Err(reason));
    if record.has_known_kind() && record.has_reserved_tag() {
        lemma_tags_finite(record.tags);
        law_read_only_tag_is_named(records, i, path);
        let tag = first_read_only(record.tags@);
        assert(record.tags@.contains_key(tag));
        law_read_only_is_reserved(tag);
        assert forall|other: Seq<char>| #[trigger]
            record.tags@.contains_key(other) && reserved(other) && other != tag implies precedes(
            tag,
            other,
        ) by {
            law_read_only_is_reserved(other);
        }
    }
}

/// A file of version 1 without a bad record is read: every record is restored under its seed, its
/// kind and its name, with what it says, and nothing else is.
pub proof fn law_good_file_is_read(
    file: CheckpointFile,
    path: Seq<char>,
    result: Result<Map<KeyView, AnnotationView>, Seq<char>>,
)
    requires
        gives(CheckpointRead::Parsed { file }, path, result),
        file.version == 1,
        forall|i: int| 0 <= i < file.annotations@.len() ==> !file.bad(i),
    ensures
        result is Ok,
        forall|i: int, kind: ResourceType|
            0 <= i < file.annotations@.len() && #[trigger] stands_for(
                file.annotations@[i].resource_type@,
                kind,
            ) ==> {
                let record = file.annotations@[i];
                let key = KeyView { seed: record.seed@, resource_type: kind, name: record.name@ };
                result->Ok_0.contains_key(key) && record.tells(result->Ok_0[key])
            },
        forall|key: KeyView| #[trigger]
            result->Ok_0.contains_key(key) ==> exists|i: int|
                {
                    let record = file.annotations@[i];
                    &&& 0 <= i < file.annotations@.len()
                    &&& record.seed@ == key.seed
                    &&& #[trigger] stands_for(
                        file.annotations@[i].resource_type@,
                        key.resource_type,
                    )
                    &&& record.name@ == key.name
                },
{
    let records = file.records();
    let n = records.len() as int;
    let entries = entries_of(records);
    lemma_good_up_to(file, n, path);
    law_read_is_determined(CheckpointRead::Parsed { file }, path, result, Ok(entries));
    lemma_faultless_distinct(records, n, path);
    assert(records.take(n) =~= records);
    let pairs = pairs_of(records);
    assert forall|i: int, kind: ResourceType|
        0 <= i < file.annotations@.len() && #[trigger] stands_for(
            file.annotations@[i].resource_type@,
            kind,
        ) implies {
        let record = file.annotations@[i];
        let key = KeyView { seed: record.seed@, resource_type: kind, name: record.name@ };
        entries.contains_key(key) && record.tells(entries[key])
    } by {
        law_words_for_kinds(file.annotations@[i].resource_type@, kind);
        assert(records[i] == file.annotations@[i]@);
        lemma_contents_at(pairs, i);
        assert(pairs[i].0 == key_of(records[i]));
    }
    assert forall|key: KeyView| #[trigger] entries.contains_key(key) implies exists|i: int|
        {
            let record = file.annotations@[i];
            &&& 0 <= i < file.annotations@.len()
            &&& record.seed@ == key.seed
            &&& #[trigger] stands_for(file.annotations@[i].resource_type@, key.resource_type)
            &&& record.name@ == key.name
        } by {
        let i = choose|i: int| 0 <= i < pairs.len() && #[trigger] pairs[i].0 == key;
        lemma_record_at(file, i, path);
        law_words_for_kinds(file.annotations@[i].resource_type@, key.resource_type);
        assert(fault(records, i, path) is None);
        assert(stands_for(file.annotations@[i].resource_type@, key.resource_type));
    }
}

/// Every entry is written: there is a record with its seed, the word for its kind, its name and
/// all that is annotated.
pub proof fn law_every_entry_is_written(
    file: CheckpointFile,
    entries: Map<KeyView, AnnotationView>,
    key: KeyView,
)
    requires
        lists(file.records(), entries),
        entries.contains_key(key),
    ensures
        exists|i: int|
            {
                let record = file.annotations@[i];
                &&& 0 <= i < file.annotations@.len()
                &&& record.seed@ == key.seed
                &&& #[trigger] stands_for(file.annotations@[i].resource_type@, key.resource_type)
                &&& record.name@ == key.name
                &&& record.tells(entries[key])
            },
{
    let records = file.records();
    let record = record_of(key, entries[key]);
    assert(records.contains(record));
    let i = choose|i: int| 0 <= i < records.len() && records[i] == record;
    assert(records[i] == file.annotations@[i]@);
    law_words_for_kinds(record.resource_type, key.resource_type);
    assert(stands_for(file.annotations@[i].resource_type@, key.resource_type));
}

/// Nothing else is written: every record is that of an entry.
pub proof fn law_only_entries_are_written(
    file: CheckpointFile,
    entries: Map<KeyView, AnnotationView>,
    i: int,
)
    requires
        lists(file.records(), entries),
        0 <= i < file.annotations@.len(),
    ensures
        exists|key: KeyView|
            {
                let record = file.annotations@[i];
                &&& #[trigger] entries.contains_key(key)
                &&& record.seed@ == key.seed
                &&& stands_for(record.resource_type@, key.resource_type)
                &&& record.name@ == key.name
                &&& record.tells(entries[key])
            },
{
    let records = file.records();
    assert(records[i] == file.annotations@[i]@);
    assert(records_entry(records[i], entries));
    let key = choose|key: KeyView| #[trigger]
        entries.contains_key(key) && records[i] == record_of(key, entries[key]);
    law_words_for_kinds(records[i].resource_type, key.resource_type);
    assert(entries.contains_key(key));
}

/// Records are written in the order of their seeds, those with one seed in the order of the words
/// for their kinds, and those of one kind in the order of their names.
pub proof fn law_records_are_written_in_order(
    file: CheckpointFile,
    entries: Map<KeyView, AnnotationView>,
    i: int,
    j: int,
)
    requires
        lists(file.records(), entries),
        0 <= i < j < file.annotations@.len(),
    ensures
        ({
            let a = file.annotations@[i];
            let b = file.annotations@[j];
            &&& a.seed@ != b.seed@ ==> precedes(a.seed@, b.seed@)
            &&& a.seed@ == b.seed@ && a.resource_type@ != b.resource_type@ ==> precedes(
                a.resource_type@,
                b.resource_type@,
            )
            &&& a.seed@ == b.seed@ && a.resource_type@ == b.resource_type@ ==> precedes(
                a.name@,
                b.name@,
            )
        }),
{
    let records = file.records();
    assert(records[i] == file.annotations@[i]@);
    assert(records[j] == file.annotations@[j]@);
    assert(records[i].before(records[j]));
    lemma_precedes_irreflexive(records[i].seed);
    lemma_precedes_irreflexive(records[i].resource_type);
}

}
