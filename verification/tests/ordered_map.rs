use annotation_store::ordered_map::OrderedMap;
use annotation_store::text::{begins_with, compare_text, same_text, Order};
use annotation_store::{read_only_tag, Tags};

#[test]
fn text_is_ordered_as_std_orders_it() {
    let texts = ["", "a", "ab", "abc", "b", "B", "\u{e9}", "\u{ffff}", "\u{10000}", "z\u{e9}"];
    for a in texts {
        for b in texts {
            let order = compare_text(a, b);
            assert_eq!(order == Order::Before, a < b, "{a:?} {b:?}");
            assert_eq!(order == Order::Same, a == b, "{a:?} {b:?}");
            assert_eq!(same_text(a, b), a == b);
            assert_eq!(begins_with(a, b), a.starts_with(b), "{a:?} {b:?}");
        }
    }
}

#[test]
fn map_keeps_one_value_for_each_key() {
    let mut map: OrderedMap<String, u32> = OrderedMap::new();
    assert_eq!(map.len(), 0);
    assert_eq!(map.insert("b".into(), 1), None);
    assert_eq!(map.insert("a".into(), 2), None);
    assert_eq!(map.insert("c".into(), 3), None);
    assert_eq!(map.insert("b".into(), 4), Some(1));
    assert_eq!(map.len(), 3);
    assert_eq!(map.get(&"b".into()), Some(&4));
    assert_eq!(map.get(&"d".into()), None);
    assert_eq!((map.key_at(0).as_str(), *map.value_at(0)), ("a", 2));
    assert_eq!((map.key_at(2).as_str(), *map.value_at(2)), ("c", 3));
    assert_eq!(map.remove(&"a".into()), Some(2));
    assert_eq!(map.remove(&"a".into()), None);
    assert_eq!(map.get(&"a".into()), None);
    assert_eq!(map.len(), 2);
}

#[test]
fn reserved_prefixes_are_read_only() {
    for key in [
        "urn:x-nmos:tag:asset:",
        "urn:x-nmos:tag:asset:manufacturer/v1.0",
        "urn:x-nmos:tag:grouphint/",
        "urn:x-nmos:tag:grouphint/v1.0",
        "urn:x-nvnmos:tag:",
        "urn:x-nvnmos:tag:name",
    ] {
        assert!(read_only_tag(key), "{key}");
    }
    for key in [
        "",
        "foo",
        "urn:x-nmos:tag:asset",
        "urn:x-nmos:tag:grouphint",
        "urn:x-nvnmos:tag",
        " urn:x-nvnmos:tag:",
        "URN:x-nvnmos:tag:",
    ] {
        assert!(!read_only_tag(key), "{key}");
    }
}

#[test]
fn tags_are_copied_with_all_values() {
    let mut tags = Tags::default();
    assert!(tags.is_empty());
    tags.insert("b".into(), vec!["1".into()]);
    tags.insert("a".into(), vec![]);
    tags.insert("b".into(), vec!["2".into(), "3".into()]);
    let copy = tags.clone();
    assert_eq!(copy.len(), 2);
    assert_eq!(copy.get("b"), Some(&vec!["2".to_string(), "3".to_string()]));
    assert_eq!(copy.key_at(0), "a");
    assert!(copy.first_read_only().is_none());
    tags.insert("urn:x-nvnmos:tag:name".into(), vec![]);
    assert_eq!(tags.first_read_only(), Some("urn:x-nvnmos:tag:name"));
    assert_eq!(copy.len(), 2);
}
