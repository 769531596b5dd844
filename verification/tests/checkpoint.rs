use annotation_store::checkpoint::{resource_type_from_name, CHECKPOINT_VERSION};
use annotation_store::opening::{Opening, OpeningEvent};
use annotation_store::replace::ReplaceStep;
use annotation_store::{
    Annotation, AnnotationChange, AnnotationStore, CheckpointError, CheckpointFile, CheckpointRead,
    CheckpointRecord, ResourceType, Tags,
};

const PATH: &str = "/tmp/annotations.json";

fn record(seed: &str, resource_type: &str, name: &str) -> CheckpointRecord {
    CheckpointRecord {
        seed: seed.into(),
        resource_type: resource_type.into(),
        name: name.into(),
        label: Some("label".into()),
        description: None,
        tags: Tags::new(),
    }
}

fn tagged(seed: &str, name: &str, keys: &[&str]) -> CheckpointRecord {
    let mut tags = Tags::new();
    for key in keys {
        tags.insert(key.to_string(), vec!["x".to_string()]);
    }
    CheckpointRecord {
        label: None,
        tags,
        ..record(seed, "sender", name)
    }
}

fn open(version: u32, annotations: Vec<CheckpointRecord>) -> Result<AnnotationStore, CheckpointError> {
    let file = CheckpointFile {
        version,
        annotations,
    };
    AnnotationStore::open(PATH, CheckpointRead::Parsed { file }, 8)
}

fn message(opened: Result<AnnotationStore, CheckpointError>) -> String {
    match opened {
        Err(error) => error.to_string(),
        Ok(_) => panic!("should be refused"),
    }
}

fn opened(step: Opening) -> AnnotationStore {
    let step = step.next(OpeningEvent::Replaced { result: Ok(()) }, PATH, 8);
    let step = step.next(OpeningEvent::Started { outcome: Ok(()) }, PATH, 8);
    match step {
        Opening::Opened { store } => store,
        step => panic!("not opened: {step:?}"),
    }
}

#[test]
fn checkpoint_round_trip_and_corrupt_file() {
    let read = OpeningEvent::Read {
        read: CheckpointRead::Missing,
    };
    let mut store = opened(Opening::Read.next(read, PATH, 8));
    assert!(store.get("seed", ResourceType::Node, "").is_none());

    let mut tags = Tags::new();
    tags.insert("foo".into(), vec!["a".into()]);
    let labeled = Annotation {
        label: Some("node-overlay".into()),
        tags,
        ..Annotation::default()
    };
    store.apply(
        "seed",
        &AnnotationChange {
            resource_type: ResourceType::Node,
            name: None,
            annotation: &labeled,
            label_changed: true,
            description_changed: false,
            tags_changed: true,
        },
    );
    let file = store.checkpoint();

    let read = OpeningEvent::Read {
        read: CheckpointRead::Parsed { file },
    };
    let restored = opened(Opening::Read.next(read, PATH, 8));
    let node = restored.get("seed", ResourceType::Node, "").unwrap();
    assert_eq!(node.label.as_deref(), Some("node-overlay"));
    assert_eq!(
        node.tags.get("foo").map(Vec::as_slice),
        Some(["a".to_string()].as_slice())
    );

    let read = OpeningEvent::Read {
        read: CheckpointRead::Malformed {
            cause: "expected ident at line 1 column 2".into(),
        },
    };
    match Opening::Read.next(read, PATH, 8) {
        Opening::Refused { error } => assert_eq!(
            error.to_string(),
            "invalid annotation checkpoint: failed to parse /tmp/annotations.json: \
             expected ident at line 1 column 2"
        ),
        step => panic!("a corrupt file is refused: {step:?}"),
    }
}

#[test]
fn read_only_tag_fails_open() {
    for key in [
        "urn:x-nvnmos:tag:name",
        "urn:x-nmos:tag:grouphint/v1.0",
        "urn:x-nmos:tag:asset:manufacturer/v1.0",
    ] {
        let file = CheckpointFile {
            version: 1,
            annotations: vec![tagged("s", "v", &[key])],
        };
        let read = OpeningEvent::Read {
            read: CheckpointRead::Parsed { file },
        };
        let error = match Opening::Read.next(read, PATH, 8) {
            Opening::Refused { error } => error,
            _ => panic!("read-only tag {key} should fail open"),
        };
        let message = error.to_string();
        assert!(
            message.contains(key),
            "error should name the tag {key}: {message}"
        );
    }
}

#[test]
fn unwritable_checkpoint_directory_fails_open() {
    let read = OpeningEvent::Read {
        read: CheckpointRead::Missing,
    };
    let step = Opening::Read.next(read, PATH, 8);
    let tmp = "/tmp/annotations.json.tmp";
    let replace = ReplaceStep::Serialise.next(Ok(()), PATH, tmp);
    let replace = replace.next(Err("Permission denied (os error 13)".into()), PATH, tmp);
    assert!(matches!(replace, ReplaceStep::Discard { .. }));
    let result = match replace.next(Ok(()), PATH, tmp) {
        ReplaceStep::Finished { result } => result,
        step => panic!("not finished: {step:?}"),
    };
    let error = match step.next(OpeningEvent::Replaced { result }, PATH, 8) {
        Opening::Refused { error } => error,
        _ => panic!("unwritable directory should fail open"),
    };
    let message = error.to_string();
    assert!(
        message.contains("failed to create"),
        "unwritable directory should fail the replacement write: {message}"
    );
}

#[test]
fn writer_that_does_not_start_fails_open() {
    let read = OpeningEvent::Read {
        read: CheckpointRead::Missing,
    };
    let step = Opening::Read.next(read, PATH, 8);
    let step = step.next(OpeningEvent::Replaced { result: Ok(()) }, PATH, 8);
    let started = OpeningEvent::Started {
        outcome: Err("no more threads".into()),
    };
    match step.next(started, PATH, 8) {
        Opening::Refused { error } => assert_eq!(
            error.to_string(),
            "invalid annotation checkpoint: failed to start checkpoint thread: no more threads"
        ),
        step => panic!("should be refused: {step:?}"),
    }
}

#[test]
fn event_out_of_turn_changes_nothing() {
    let started = OpeningEvent::Started { outcome: Ok(()) };
    assert!(matches!(Opening::Read.next(started, PATH, 8), Opening::Read));
}

#[test]
fn unreadable_file_is_refused() {
    let read = CheckpointRead::Unreadable {
        cause: "Permission denied (os error 13)".into(),
    };
    assert_eq!(
        message(AnnotationStore::open(PATH, read, 8)),
        "invalid annotation checkpoint: failed to read /tmp/annotations.json: \
         Permission denied (os error 13)"
    );
}

#[test]
fn other_version_is_refused() {
    assert_eq!(CHECKPOINT_VERSION, 1);
    for (version, text) in [(0, "0"), (2, "2"), (10, "10"), (u32::MAX, "4294967295")] {
        assert_eq!(
            message(open(version, vec![])),
            format!(
                "invalid annotation checkpoint: unsupported version {text} in /tmp/annotations.json"
            )
        );
    }
}

#[test]
fn unknown_resource_type_is_refused() {
    assert_eq!(
        message(open(1, vec![record("s", "bogus", "v")])),
        "invalid annotation checkpoint: unknown resource_type \"bogus\""
    );
    assert_eq!(
        message(open(1, vec![record("s", "it's ~", "v")])),
        "invalid annotation checkpoint: unknown resource_type \"it's ~\""
    );
    assert_eq!(
        message(open(1, vec![record("s", "a\"b\\\n", "v")])),
        "invalid annotation checkpoint: unknown resource_type \"a\\\"b\\\\\\n\""
    );
}

#[test]
fn duplicate_is_refused() {
    let records = vec![record("s", "node", ""), record("t", "node", ""), record("s", "node", "")];
    assert_eq!(
        message(open(1, records)),
        "invalid annotation checkpoint: duplicate annotation in /tmp/annotations.json"
    );
}

#[test]
fn first_read_only_key_in_order_is_named() {
    let keys = ["urn:x-nvnmos:tag:name", "a", "urn:x-nmos:tag:grouphint/v1.0"];
    assert_eq!(
        message(open(1, vec![tagged("s", "v", &keys)])),
        "invalid annotation checkpoint: read-only annotation tag \
         \"urn:x-nmos:tag:grouphint/v1.0\" in /tmp/annotations.json"
    );
}

#[test]
fn read_only_key_that_is_not_plain_is_named_in_escaped_form() {
    let records = vec![record("s", "node", ""), tagged("s", "v", &["urn:x-nvnmos:tag:a\"b"])];
    assert_eq!(
        message(open(1, records)),
        "invalid annotation checkpoint: read-only annotation tag \
         \"urn:x-nvnmos:tag:a\\\"b\" in /tmp/annotations.json"
    );
}

#[test]
fn first_bad_record_is_reported() {
    let records = vec![
        record("s", "node", ""),
        record("s", "node", ""),
        record("s", "bogus", ""),
    ];
    assert!(message(open(1, records)).contains("duplicate annotation"));
    let mut both = tagged("s", "v", &["urn:x-nvnmos:tag:name"]);
    both.resource_type = "bogus".into();
    assert!(message(open(1, vec![both])).contains("unknown resource_type"));
    let again = vec![tagged("s", "v", &["a"]), tagged("s", "v", &["urn:x-nvnmos:tag:name"])];
    assert!(message(open(1, again)).contains("read-only annotation tag"));
}

#[test]
fn resource_types_have_names() {
    for (resource_type, name) in [
        (ResourceType::Node, "node"),
        (ResourceType::Device, "device"),
        (ResourceType::Source, "source"),
        (ResourceType::Flow, "flow"),
        (ResourceType::Sender, "sender"),
        (ResourceType::Receiver, "receiver"),
    ] {
        assert_eq!(annotation_store::annotation::resource_type_name(resource_type), name);
        assert_eq!(resource_type_from_name(name).unwrap(), resource_type);
    }
    assert!(resource_type_from_name("Node").is_err());
    assert!(resource_type_from_name("").is_err());
}

#[test]
fn records_are_in_order() {
    let records = vec![
        record("b", "node", ""),
        record("a", "sender", "z"),
        record("a", "source", "a"),
        record("a", "device", ""),
        record("a", "sender", "y"),
        record("ab", "flow", "q"),
        record("\u{e9}", "flow", "q"),
        record("Z", "receiver", "q"),
    ];
    let file = open(1, records).unwrap().checkpoint();
    assert_eq!(file.version, 1);
    let keys: Vec<(&str, &str, &str)> = file
        .annotations
        .iter()
        .map(|record| {
            (
                record.seed.as_str(),
                record.resource_type.as_str(),
                record.name.as_str(),
            )
        })
        .collect();
    assert_eq!(
        keys,
        vec![
            ("Z", "receiver", "q"),
            ("a", "device", ""),
            ("a", "sender", "y"),
            ("a", "sender", "z"),
            ("a", "source", "a"),
            ("ab", "flow", "q"),
            ("b", "node", ""),
            ("\u{e9}", "flow", "q"),
        ]
    );
    let mut sorted = keys.clone();
    sorted.sort();
    assert_eq!(keys, sorted);
}

#[test]
fn limit_does_not_bear_on_what_is_restored() {
    let file = CheckpointFile {
        version: 1,
        annotations: vec![record("a", "node", ""), record("b", "node", "")],
    };
    let mut store = AnnotationStore::open(PATH, CheckpointRead::Parsed { file }, 1).unwrap();
    assert_eq!(store.len(), 2);
    let labeled = Annotation {
        label: Some("new".into()),
        ..Annotation::default()
    };
    for (seed, remembered) in [("c", false), ("a", true)] {
        assert_eq!(
            store.apply(
                seed,
                &AnnotationChange {
                    resource_type: ResourceType::Node,
                    name: None,
                    annotation: &labeled,
                    label_changed: true,
                    description_changed: false,
                    tags_changed: false,
                },
            ),
            remembered
        );
    }
    let found = store.get("a", ResourceType::Node, "").unwrap();
    assert_eq!(found.label.as_deref(), Some("new"));
}

#[test]
fn reset_entry_is_not_written() {
    let mut store = open(1, vec![record("a", "node", ""), record("b", "node", "")]).unwrap();
    assert_eq!(store.limit(), 8);
    let reset = Annotation::default();
    store.apply(
        "a",
        &AnnotationChange {
            resource_type: ResourceType::Node,
            name: None,
            annotation: &reset,
            label_changed: true,
            description_changed: false,
            tags_changed: false,
        },
    );
    let file = store.checkpoint();
    assert_eq!(file.annotations.len(), 1);
    assert_eq!(file.annotations[0].seed, "b");
    assert!(file.annotations[0].tags.is_empty());
}

#[test]
fn read_only_tag_is_not_read_back() {
    let mut store = AnnotationStore::memory(8);
    let mut tags = Tags::new();
    tags.insert("urn:x-nvnmos:tag:name".into(), vec!["video".into()]);
    let annotation = Annotation {
        tags,
        ..Annotation::default()
    };
    assert!(store.apply(
        "s",
        &AnnotationChange {
            resource_type: ResourceType::Sender,
            name: Some("video"),
            annotation: &annotation,
            label_changed: false,
            description_changed: false,
            tags_changed: true,
        },
    ));
    let file = store.checkpoint();
    assert!(message(open(file.version, file.annotations)).contains("urn:x-nvnmos:tag:name"));
}

#[test]
fn first_read_only_tag_of_the_first_entry_is_named() {
    let mut store = AnnotationStore::memory(8);
    for (name, keys) in [
        ("c", ["urn:x-nvnmos:tag:a", "foo"]),
        ("b", ["urn:x-nvnmos:tag:z", "urn:x-nvnmos:tag:y"]),
        ("a", ["bar", "foo"]),
    ] {
        let annotation = Annotation {
            tags: tagged("s", name, &keys).tags,
            ..Annotation::default()
        };
        assert!(store.apply(
            "s",
            &AnnotationChange {
                resource_type: ResourceType::Sender,
                name: Some(name),
                annotation: &annotation,
                label_changed: false,
                description_changed: false,
                tags_changed: true,
            },
        ));
    }
    let file = store.checkpoint();
    assert_eq!(
        message(open(file.version, file.annotations)),
        "invalid annotation checkpoint: read-only annotation tag \
         \"urn:x-nvnmos:tag:y\" in /tmp/annotations.json"
    );
    assert!(message(open(2, store.checkpoint().annotations)).contains("version"));
}

#[test]
fn reopened_store_is_written_as_before() {
    let records = vec![
        record("t", "node", ""),
        tagged("s", "v", &["foo", "bar"]),
        record("s", "flow", "f"),
    ];
    let first = open(1, records).unwrap().checkpoint();
    let written = format!("{first:?}");
    let read = CheckpointRead::Parsed { file: first };
    let store = AnnotationStore::open("/var/other.json", read, 1).unwrap();
    assert_eq!((store.len(), store.limit()), (3, 1));
    assert_eq!(format!("{:?}", store.checkpoint()), written);
}

#[test]
fn record_with_nothing_annotated_is_restored() {
    let empty = CheckpointRecord {
        label: None,
        ..record("s", "flow", "f")
    };
    let store = open(1, vec![empty]).unwrap();
    assert!(store.get("s", ResourceType::Flow, "f").unwrap().is_empty());
}

#[test]
fn all_members_come_back() {
    let mut tags = Tags::new();
    tags.insert("foo".into(), vec!["a".into(), "".into()]);
    tags.insert("bar".into(), vec![]);
    let full = CheckpointRecord {
        description: Some("".into()),
        tags,
        ..record("s", "receiver", "r")
    };
    let store = open(1, vec![full]).unwrap();
    let file = store.checkpoint();
    assert_eq!(file.annotations.len(), 1);
    let found = open(file.version, file.annotations).unwrap();
    let found = found.get("s", ResourceType::Receiver, "r").unwrap();
    assert_eq!(found.label.as_deref(), Some("label"));
    assert_eq!(found.description.as_deref(), Some(""));
    assert_eq!(found.tags.len(), 2);
    assert_eq!(found.tags.get("bar"), Some(&vec![]));
    assert_eq!(found.tags.get("foo"), Some(&vec!["a".to_string(), "".to_string()]));
    assert_eq!(found.tags.key_at(0), "bar");
    assert_eq!(found.tags.values_at(1).len(), 2);
}
