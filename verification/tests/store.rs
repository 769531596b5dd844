use annotation_store::{Annotation, AnnotationChange, AnnotationStore, ResourceType, Tags};

fn change<'a>(
    resource_type: ResourceType,
    name: Option<&'a str>,
    annotation: &'a Annotation,
    label_changed: bool,
    description_changed: bool,
    tags_changed: bool,
) -> AnnotationChange<'a> {
    AnnotationChange {
        resource_type,
        name,
        annotation,
        label_changed,
        description_changed,
        tags_changed,
    }
}

fn labeled(label: &str) -> Annotation {
    Annotation {
        label: Some(label.into()),
        ..Annotation::default()
    }
}

fn tagged(pairs: &[(&str, &[&str])]) -> Annotation {
    let mut tags = Tags::new();
    for (key, values) in pairs {
        tags.insert(
            key.to_string(),
            values.iter().map(|value| value.to_string()).collect(),
        );
    }
    Annotation {
        tags,
        ..Annotation::default()
    }
}

#[test]
fn apply_keeps_unflagged_members_and_deletes_an_empty_entry() {
    let mut store = AnnotationStore::memory(8);
    let labeled = Annotation {
        label: Some("overlay".into()),
        ..Annotation::default()
    };
    store.apply(
        "seed",
        &change(
            ResourceType::Sender,
            Some("video"),
            &labeled,
            true,
            false,
            false,
        ),
    );
    let described = Annotation {
        description: Some("info".into()),
        ..Annotation::default()
    };
    store.apply(
        "seed",
        &change(
            ResourceType::Sender,
            Some("video"),
            &described,
            false,
            true,
            false,
        ),
    );
    let stored = store.get("seed", ResourceType::Sender, "video").unwrap();
    assert_eq!(stored.label.as_deref(), Some("overlay"));
    assert_eq!(stored.description.as_deref(), Some("info"));

    let reset = Annotation::default();
    store.apply(
        "seed",
        &change(
            ResourceType::Sender,
            Some("video"),
            &reset,
            true,
            true,
            false,
        ),
    );
    assert!(store.get("seed", ResourceType::Sender, "video").is_none());
}

#[test]
fn limit_refuses_a_new_key_and_still_updates_an_existing_one() {
    let mut store = AnnotationStore::memory(1);
    let first = Annotation {
        label: Some("one".into()),
        ..Annotation::default()
    };
    store.apply(
        "seed",
        &change(ResourceType::Sender, Some("a"), &first, true, false, false),
    );
    let second = Annotation {
        label: Some("two".into()),
        ..Annotation::default()
    };
    store.apply(
        "seed",
        &change(ResourceType::Sender, Some("b"), &second, true, false, false),
    );
    assert!(store.get("seed", ResourceType::Sender, "b").is_none());
    let updated = Annotation {
        label: Some("one-b".into()),
        ..Annotation::default()
    };
    store.apply(
        "seed",
        &change(
            ResourceType::Sender,
            Some("a"),
            &updated,
            true,
            false,
            false,
        ),
    );
    assert_eq!(
        store
            .get("seed", ResourceType::Sender, "a")
            .unwrap()
            .label
            .as_deref(),
        Some("one-b")
    );
}

#[test]
fn apply_says_whether_a_change_is_remembered() {
    let mut store = AnnotationStore::memory(1);
    let one = labeled("one");
    assert!(store.apply("s", &change(ResourceType::Node, None, &one, true, false, false)));
    assert!(!store.apply("t", &change(ResourceType::Node, None, &one, true, false, false)));
    assert!(store.apply("s", &change(ResourceType::Node, None, &one, true, false, false)));
    assert_eq!(store.len(), 1);
    let mut none = AnnotationStore::memory(0);
    assert!(!none.apply("s", &change(ResourceType::Node, None, &one, true, false, false)));
    assert_eq!(none.len(), 0);
}

#[test]
fn entries_are_kept_apart() {
    let mut store = AnnotationStore::memory(8);
    let source = labeled("source");
    let sender = labeled("sender");
    store.apply("a", &change(ResourceType::Source, Some("v"), &source, true, false, false));
    store.apply("a", &change(ResourceType::Sender, Some("v"), &sender, true, false, false));
    assert!(store.get("b", ResourceType::Source, "v").is_none());
    assert!(store.get("a", ResourceType::Flow, "v").is_none());
    assert!(store.get("a", ResourceType::Source, "w").is_none());
    let found = store.get("a", ResourceType::Source, "v").unwrap();
    assert_eq!(found.label.as_deref(), Some("source"));
    let found = store.get("a", ResourceType::Sender, "v").unwrap();
    assert_eq!(found.label.as_deref(), Some("sender"));
}

#[test]
fn node_and_device_have_an_empty_name() {
    let mut store = AnnotationStore::memory(8);
    let node = labeled("node");
    store.apply("s", &change(ResourceType::Node, None, &node, true, false, false));
    assert!(store.get("s", ResourceType::Node, "").is_some());
    assert!(store.get("s", ResourceType::Device, "").is_none());
}

#[test]
fn empty_string_is_an_annotation() {
    let mut store = AnnotationStore::memory(8);
    let empty = labeled("");
    store.apply("s", &change(ResourceType::Sender, Some("v"), &empty, true, false, false));
    let found = store.get("s", ResourceType::Sender, "v").unwrap();
    assert_eq!(found.label.as_deref(), Some(""));
    store.apply(
        "s",
        &change(ResourceType::Sender, Some("v"), &Annotation::default(), true, false, false),
    );
    assert!(store.get("s", ResourceType::Sender, "v").is_none());
}

#[test]
fn tags_are_replaced_as_a_whole() {
    let mut store = AnnotationStore::memory(8);
    let both = tagged(&[("foo", &["a", "b"]), ("bar", &[])]);
    store.apply("s", &change(ResourceType::Flow, Some("v"), &both, false, false, true));
    let found = store.get("s", ResourceType::Flow, "v").unwrap();
    assert_eq!(
        found.tags.get("foo"),
        Some(&vec!["a".to_string(), "b".to_string()])
    );
    assert_eq!(found.tags.get("bar"), Some(&vec![]));
    let bar = tagged(&[("bar", &[])]);
    store.apply("s", &change(ResourceType::Flow, Some("v"), &bar, false, false, true));
    let found = store.get("s", ResourceType::Flow, "v").unwrap();
    assert!(found.tags.get("foo").is_none());
    assert_eq!(found.tags.len(), 1);
    let unflagged = labeled("ignored");
    store.apply("s", &change(ResourceType::Flow, Some("v"), &unflagged, false, false, false));
    let found = store.get("s", ResourceType::Flow, "v").unwrap();
    assert_eq!(found.label, None);
    assert_eq!(found.tags.len(), 1);
    store.apply(
        "s",
        &change(ResourceType::Flow, Some("v"), &Annotation::default(), false, false, true),
    );
    assert!(store.get("s", ResourceType::Flow, "v").is_none());
}

#[test]
fn change_applied_twice_changes_nothing_more() {
    let mut store = AnnotationStore::memory(2);
    let one = labeled("one");
    for _ in 0..2 {
        store.apply("s", &change(ResourceType::Receiver, Some("r"), &one, true, false, false));
        assert_eq!(store.len(), 1);
        let found = store.get("s", ResourceType::Receiver, "r").unwrap();
        assert_eq!(found.label.as_deref(), Some("one"));
    }
    let reset = Annotation::default();
    for _ in 0..2 {
        store.apply("s", &change(ResourceType::Receiver, Some("r"), &reset, true, true, true));
        assert_eq!(store.len(), 0);
    }
}

#[test]
fn change_that_annotates_nothing_makes_no_entry() {
    let mut store = AnnotationStore::memory(2);
    let nothing = Annotation::default();
    assert!(store.apply("s", &change(ResourceType::Sender, Some("v"), &nothing, true, true, true)));
    assert_eq!(store.len(), 0);
    assert!(nothing.is_empty());
    assert!(!labeled("").is_empty());
}

#[test]
fn many_entries_are_found_again() {
    let mut store = AnnotationStore::memory(1000);
    for i in 0..500usize {
        let name = format!("n{}", (i * 337) % 500);
        let annotation = labeled(&name);
        store.apply(
            "s",
            &change(ResourceType::Sender, Some(&name), &annotation, true, false, false),
        );
    }
    assert_eq!(store.len(), 500);
    for i in 0..500usize {
        let name = format!("n{i}");
        let found = store.get("s", ResourceType::Sender, &name).unwrap();
        assert_eq!(found.label, Some(name));
    }
    for i in 0..250usize {
        let name = format!("n{}", i * 2);
        store.apply(
            "s",
            &change(ResourceType::Sender, Some(&name), &Annotation::default(), true, true, true),
        );
    }
    assert_eq!(store.len(), 250);
    assert!(store.get("s", ResourceType::Sender, "n2").is_none());
    assert!(store.get("s", ResourceType::Sender, "n3").is_some());
}
