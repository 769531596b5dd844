//! Annotations of resources: an optional label, an optional description and writable tags.

use crate::ordered_map::{
    ascending, contents, keys_distinct, lemma_ascending_distinct, lemma_contents_at,
    lemma_contents_finite, lemma_contents_take, lemma_contents_with_values, with_values, OrderedKey,
    OrderedMap,
};
use crate::text::{
    begins_with, lemma_precedes_irreflexive, lemma_precedes_total, lemma_precedes_transitive,
    optional_text, precedes, texts,
};
use vstd::prelude::*;

verus! {

/// The kind of resource that an annotation is about.
#[derive(Clone, Copy, Debug, PartialEq, Eq, Structural)]
pub enum ResourceType {
    Node,
    Device,
    Source,
    Flow,
    Sender,
    Receiver,
}

/// The name under which a kind of resource is written down.
pub open spec fn written_name(resource_type: ResourceType) -> Seq<char> {
    match resource_type {
        ResourceType::Node => "node"@,
        ResourceType::Device => "device"@,
        ResourceType::Source => "source"@,
        ResourceType::Flow => "flow"@,
        ResourceType::Sender => "sender"@,
        ResourceType::Receiver => "receiver"@,
    }
}

/// Kinds of resource with the same name are the same.
pub proof fn lemma_written_name_identifies(a: ResourceType, b: ResourceType)
    requires
        written_name(a) == written_name(b),
    ensures
        a == b,
{
    reveal_strlit("node");
    reveal_strlit("device");
    reveal_strlit("source");
    reveal_strlit("flow");
    reveal_strlit("sender");
    reveal_strlit("receiver");
    assert("node"@[0] == 'n' && "device"@[0] == 'd' && "flow"@[0] == 'f' && "receiver"@[0] == 'r');
    assert("source"@[0] == 's' && "source"@[1] == 'o');
    assert("sender"@[0] == 's' && "sender"@[1] == 'e');
}

/// The name of a kind of resource.
pub fn resource_type_name(resource_type: ResourceType) -> (name: &'static str)
    ensures
        name@ == written_name(resource_type),
{
    match resource_type {
        ResourceType::Node => "node",
        ResourceType::Device => "device",
        ResourceType::Source => "source",
        ResourceType::Flow => "flow",
        ResourceType::Sender => "sender",
        ResourceType::Receiver => "receiver",
    }
}

/// A tag whose key has one of the reserved prefixes is not annotated.
pub open spec fn is_read_only(key: Seq<char>) -> bool {
    ||| "urn:x-nmos:tag:asset:"@.is_prefix_of(key)
    ||| "urn:x-nmos:tag:grouphint/"@.is_prefix_of(key)
    ||| "urn:x-nvnmos:tag:"@.is_prefix_of(key)
}

/// Whether `key` is the key of a read-only tag.
pub fn read_only_tag(key: &str) -> (read_only: bool)
    ensures
        read_only == is_read_only(key@),
{
    begins_with(key, "urn:x-nmos:tag:asset:") || begins_with(key, "urn:x-nmos:tag:grouphint/")
        || begins_with(key, "urn:x-nvnmos:tag:")
}

/// Some key is read-only.
pub open spec fn has_read_only(tags: Map<Seq<char>, Seq<Seq<char>>>) -> bool {
    exists|key: Seq<char>| #[trigger] tags.contains_key(key) && is_read_only(key)
}

/// `key` is read-only, and comes before every other read-only key.
pub open spec fn is_first_read_only(
    tags: Map<Seq<char>, Seq<Seq<char>>>,
    key: Seq<char>,
) -> bool {
    &&& tags.contains_key(key)
    &&& is_read_only(key)
    &&& forall|other: Seq<char>| #[trigger]
        tags.contains_key(other) && is_read_only(other) && other != key ==> precedes(key, other)
}

/// There is no more than one first read-only key.
pub proof fn lemma_first_read_only_unique(
    tags: Map<Seq<char>, Seq<Seq<char>>>,
    a: Seq<char>,
    b: Seq<char>,
)
    requires
        is_first_read_only(tags, a),
        is_first_read_only(tags, b),
    ensures
        a == b,
{
    if a != b {
        lemma_precedes_transitive(a, b, a);
        lemma_precedes_irreflexive(a);
    }
}

/// Where there is a read-only key, there is a first one.
pub proof fn lemma_first_read_only_exists(tags: Map<Seq<char>, Seq<Seq<char>>>)
    requires
        tags.dom().finite(),
        has_read_only(tags),
    ensures
        exists|key: Seq<char>| is_first_read_only(tags, key),
{
    let not_after = |a: Seq<char>, b: Seq<char>| a == b || precedes(a, b);
    let read_only = tags.dom().filter(|key: Seq<char>| is_read_only(key));
    let some = choose|key: Seq<char>| #[trigger] tags.contains_key(key) && is_read_only(key);
    assert(read_only.contains(some));
    assert(vstd::relations::total_ordering(not_after)) by {
        assert forall|a: Seq<char>, b: Seq<char>| #[trigger]
            not_after(a, b) && #[trigger] not_after(b, a) implies a == b by {
            if a != b {
                lemma_precedes_transitive(a, b, a);
                lemma_precedes_irreflexive(a);
            }
        }
        assert forall|a: Seq<char>, b: Seq<char>, c: Seq<char>| #[trigger]
            not_after(a, b) && #[trigger] not_after(b, c) implies not_after(a, c) by {
            if a != b && b != c {
                lemma_precedes_transitive(a, b, c);
            }
        }
        assert forall|a: Seq<char>, b: Seq<char>| #[trigger] not_after(a, b) || #[trigger] not_after(
            b,
            a,
        ) by {
            lemma_precedes_total(a, b);
        }
    }
    let first = read_only.find_unique_minimal(not_after);
    read_only.find_unique_minimal_ensures(not_after);
    assert(read_only.contains(first));
    assert forall|other: Seq<char>| #[trigger]
        tags.contains_key(other) && is_read_only(other) && other != first implies precedes(
        first,
        other,
    ) by {
        assert(read_only.contains(other));
        assert(not_after(first, other) || not_after(other, first));
    }
    assert(is_first_read_only(tags, first));
}

/// Writable tags: for each key a list of values. Keys are kept in the order of their text.
#[derive(Debug)]
pub struct Tags {
    map: OrderedMap<String, Vec<String>>,
}

impl View for Tags {
    type V = Map<Seq<char>, Seq<Seq<char>>>;

    closed spec fn view(&self) -> Map<Seq<char>, Seq<Seq<char>>> {
        self.map@.map_values(|values: Vec<String>| texts(values))
    }
}

/// There are finitely many tags.
pub proof fn lemma_tags_finite(tags: Tags)
    ensures
        tags@.dom().finite(),
{
    lemma_contents_finite(tags.map.pairs());
    assert(tags@.dom() =~= tags.map@.dom());
}

impl Tags {
    /// The keys and values in the order of the keys.
    pub closed spec fn pairs(&self) -> Seq<(Seq<char>, Seq<Seq<char>>)> {
        with_values(self.map.pairs(), |values: Vec<String>| texts(values))
    }

    /// No tags.
    pub fn new() -> (tags: Self)
        ensures
            tags@ == Map::<Seq<char>, Seq<Seq<char>>>::empty(),
    {
        let tags = Tags { map: OrderedMap::new() };
        assert(tags@ =~= Map::<Seq<char>, Seq<Seq<char>>>::empty());
        tags
    }

    /// How many keys there are.
    pub fn len(&self) -> (len: usize)
        ensures
            len == self@.dom().len(),
            len == self.pairs().len(),
            self@ == contents(self.pairs()),
            ascending::<String, Seq<Seq<char>>>(self.pairs()),
            keys_distinct(self.pairs()),
            self@.dom().finite(),
    {
        let len = self.map.len();
        proof {
            lemma_ascending_distinct::<String, Vec<String>>(self.map.pairs());
            lemma_contents_with_values(
                self.map.pairs(),
                |values: Vec<String>| texts(values),
            );
            assert(self@.dom() =~= self.map@.dom());
            let pairs = self.map.pairs();
            assert forall|i: int, j: int| 0 <= i < j < pairs.len() implies String::before(
                #[trigger] self.pairs()[i].0,
                #[trigger] self.pairs()[j].0,
            ) by {
                assert(String::before(pairs[i].0, pairs[j].0));
            }
        }
        len
    }

    /// Whether there are no keys.
    pub fn is_empty(&self) -> (empty: bool)
        ensures
            empty == (self@ == Map::<Seq<char>, Seq<Seq<char>>>::empty()),
    {
        let len = self.len();
        proof {
            if len == 0 {
                self@.dom().lemma_len0_is_empty();
                assert(self@ =~= Map::<Seq<char>, Seq<Seq<char>>>::empty());
            }
        }
        len == 0
    }

    /// The values of `key`.
    pub fn get(&self, key: &str) -> (values: Option<&Vec<String>>)
        ensures
            match values {
                Some(values) => self@.contains_key(key@) && texts(*values) == self@[key@],
                None => !self@.contains_key(key@),
            },
    {
        self.map.get(&key.to_owned())
    }

    /// Sets the values of `key`.
    pub fn insert(&mut self, key: String, values: Vec<String>)
        ensures
            final(self)@ == old(self)@.insert(key@, texts(values)),
    {
        let ghost before = self.map@;
        let ghost key_text = key@;
        self.map.insert(key, values);
        assert(self.map@.map_values(|values: Vec<String>| texts(values)) =~= before.map_values(
            |values: Vec<String>| texts(values),
        ).insert(key_text, texts(values)));
    }

    /// The first key, in the order of the keys, that is read-only.
    pub fn first_read_only(&self) -> (found: Option<&str>)
        ensures
            match found {
                Some(key) => is_first_read_only(self@, key@),
                None => !has_read_only(self@),
            },
            self@.dom().finite(),
    {
        let len: usize = self.len();
        let ghost pairs = self.pairs();
        for i in 0..len
            invariant
                len == pairs.len(),
                pairs == self.pairs(),
                self@ == contents(pairs),
                self@.dom().finite(),
                keys_distinct(pairs),
                ascending::<String, Seq<Seq<char>>>(pairs),
                forall|j: int| 0 <= j < i ==> !is_read_only((#[trigger] pairs[j]).0),
        {
            let key: &str = self.key_at(i);
            if read_only_tag(key) {
                proof {
                    lemma_contents_at(pairs, i as int);
                    assert forall|other: Seq<char>| #[trigger]
                        self@.contains_key(other) && is_read_only(other) && other
                            != key@ implies precedes(key@, other) by {
                        let j = choose|j: int| 0 <= j < pairs.len() && #[trigger] pairs[j].0 == other;
                        assert(String::before(pairs[i as int].0, pairs[j].0));
                    }
                }
                return Some(key);
            }
        }
        assert forall|key: Seq<char>| #[trigger] self@.contains_key(key) implies !is_read_only(
            key,
        ) by {
            let j = choose|j: int| 0 <= j < pairs.len() && #[trigger] pairs[j].0 == key;
            assert(!is_read_only(pairs[j].0));
        }
        None
    }

    /// The key at place `i` of the order.
    pub fn key_at(&self, i: usize) -> (key: &str)
        requires
            i < self.pairs().len(),
        ensures
            key@ == self.pairs()[i as int].0,
    {
        self.map.key_at(i).as_str()
    }

    /// The values at place `i` of the order.
    pub fn values_at(&self, i: usize) -> (values: &Vec<String>)
        requires
            i < self.pairs().len(),
        ensures
            texts(*values) == self.pairs()[i as int].1,
    {
        self.map.value_at(i)
    }
}

impl Default for Tags {
    fn default() -> (tags: Self)
        ensures
            tags@ == Map::<Seq<char>, Seq<Seq<char>>>::empty(),
    {
        Tags::new()
    }
}

impl Clone for Tags {
    fn clone(&self) -> (copy: Self)
        ensures
            copy@ == self@,
    {
        let mut copy = Tags::new();
        let len: usize = self.len();
        let ghost pairs = self.pairs();
        assert(contents(pairs.take(0)) =~= copy@);
        for i in 0..len
            invariant
                len == pairs.len(),
                pairs == self.pairs(),
                keys_distinct(pairs),
                copy@ == contents(pairs.take(i as int)),
        {
            let values: Vec<String> = self.values_at(i).clone();
            proof {
                assert(texts(values) =~= pairs[i as int].1);
                lemma_contents_take(pairs, i as int);
            }
            copy.insert(self.key_at(i).to_owned(), values);
        }
        assert(pairs.take(len as int) =~= pairs);
        copy
    }
}

/// What an annotation says.
#[verifier::ext_equal]
pub struct AnnotationView {
    pub label: Option<Seq<char>>,
    pub description: Option<Seq<char>>,
    pub tags: Map<Seq<char>, Seq<Seq<char>>>,
}

impl AnnotationView {
    /// Nothing is annotated.
    pub open spec fn nothing() -> Self {
        AnnotationView { label: None, description: None, tags: Map::empty() }
    }

    /// No tag is read-only.
    pub open spec fn tags_writable(self) -> bool {
        forall|key: Seq<char>| #[trigger] self.tags.contains_key(key) ==> !is_read_only(key)
    }
}

/// What is annotated on one resource. An absent member is not annotated; an empty string is an
/// annotation.
#[derive(Debug)]
pub struct Annotation {
    pub label: Option<String>,
    pub description: Option<String>,
    pub tags: Tags,
}

impl View for Annotation {
    type V = AnnotationView;

    open spec fn view(&self) -> AnnotationView {
        AnnotationView {
            label: optional_text(self.label),
            description: optional_text(self.description),
            tags: self.tags@,
        }
    }
}

impl Default for Annotation {
    fn default() -> (annotation: Self)
        ensures
            annotation@ == AnnotationView::nothing(),
    {
        Annotation { label: None, description: None, tags: Tags::new() }
    }
}

impl Clone for Annotation {
    fn clone(&self) -> (copy: Self)
        ensures
            copy@ == self@,
    {
        Annotation {
            label: self.label.clone(),
            description: self.description.clone(),
            tags: self.tags.clone(),
        }
    }
}

impl Annotation {
    /// Whether nothing is annotated.
    pub fn is_empty(&self) -> (empty: bool)
        ensures
            empty == (self@ == AnnotationView::nothing()),
    {
        self.label.is_none() && self.description.is_none() && self.tags.is_empty()
    }
}

/// One change of an annotation. A member of `annotation` counts only where the flag beside it is
/// set; an absent label or description, or an empty set of tags, is then a reset.
#[derive(Debug)]
pub struct AnnotationChange<'a> {
    pub resource_type: ResourceType,
    /// The name of the sender or receiver. A node or a device has none.
    pub name: Option<&'a str>,
    pub annotation: &'a Annotation,
    pub label_changed: bool,
    pub description_changed: bool,
    pub tags_changed: bool,
}

/// What a change does to the annotation of its resource. Which resource that is, is told by the
/// key under which the change is applied.
pub struct ChangeView {
    pub annotation: AnnotationView,
    pub label_changed: bool,
    pub description_changed: bool,
    pub tags_changed: bool,
}

impl ChangeView {
    /// The flagged members of the change, and the other members of `entry`.
    pub open spec fn merged(self, entry: AnnotationView) -> AnnotationView {
        AnnotationView {
            label: if self.label_changed {
                self.annotation.label
            } else {
                entry.label
            },
            description: if self.description_changed {
                self.annotation.description
            } else {
                entry.description
            },
            tags: if self.tags_changed {
                self.annotation.tags
            } else {
                entry.tags
            },
        }
    }
}

impl<'a> View for AnnotationChange<'a> {
    type V = ChangeView;

    open spec fn view(&self) -> ChangeView {
        ChangeView {
            annotation: self.annotation@,
            label_changed: self.label_changed,
            description_changed: self.description_changed,
            tags_changed: self.tags_changed,
        }
    }
}

impl<'a> AnnotationChange<'a> {
    /// The name in the key of the changed entry: empty where the resource has no name.
    pub open spec fn key_name(&self) -> Seq<char> {
        match self.name {
            Some(name) => name@,
            None => Seq::empty(),
        }
    }

    /// Applies the flagged members to `entry`.
    pub fn merge_into(&self, entry: &mut Annotation)
        ensures
            final(entry)@ == self@.merged(old(entry)@),
            self.label_changed ==> final(entry)@.label == self.annotation@.label,
            self.description_changed ==> final(entry)@.description
                == self.annotation@.description,
            self.tags_changed ==> final(entry)@.tags == self.annotation@.tags,
    {
        if self.label_changed {
            entry.label = self.annotation.label.clone();
        }
        if self.description_changed {
            entry.description = self.annotation.description.clone();
        }
        if self.tags_changed {
            entry.tags = self.annotation.tags.clone();
        }
    }
}

/// A key that begins with one of the reserved prefixes is read-only, whatever stands behind it.
pub proof fn law_reserved_prefixes_are_read_only(rest: Seq<char>)
    ensures
        is_read_only("urn:x-nmos:tag:asset:"@ + rest),
        is_read_only("urn:x-nmos:tag:grouphint/"@ + rest),
        is_read_only("urn:x-nvnmos:tag:"@ + rest),
{
    let asset = "urn:x-nmos:tag:asset:"@;
    let group = "urn:x-nmos:tag:grouphint/"@;
    let own = "urn:x-nvnmos:tag:"@;
    assert(asset =~= (asset + rest).subrange(0, asset.len() as int));
    assert(group =~= (group + rest).subrange(0, group.len() as int));
    assert(own =~= (own + rest).subrange(0, own.len() as int));
}

/// Only a key that begins with one of the reserved prefixes is read-only.
pub proof fn law_only_reserved_prefixes_are_read_only(key: Seq<char>)
    requires
        forall|rest: Seq<char>| key != #[trigger] ("urn:x-nmos:tag:asset:"@ + rest),
        forall|rest: Seq<char>| key != #[trigger] ("urn:x-nmos:tag:grouphint/"@ + rest),
        forall|rest: Seq<char>| key != #[trigger] ("urn:x-nvnmos:tag:"@ + rest),
    ensures
        !is_read_only(key),
{
    let asset = "urn:x-nmos:tag:asset:"@;
    let group = "urn:x-nmos:tag:grouphint/"@;
    let own = "urn:x-nvnmos:tag:"@;
    if asset.is_prefix_of(key) {
        assert(key =~= asset + key.skip(asset.len() as int));
    }
    if group.is_prefix_of(key) {
        assert(key =~= group + key.skip(group.len() as int));
    }
    if own.is_prefix_of(key) {
        assert(key =~= own + key.skip(own.len() as int));
    }
}

/// A flagged member takes the value of the change, whatever the entry held; a member that is not
/// flagged keeps the value of the entry.
pub proof fn law_change_sets_what_it_flags(change: AnnotationChange<'_>, entry: AnnotationView)
    ensures
        change.label_changed ==> match change.annotation.label {
            Some(label) => change@.merged(entry).label == Some(label@),
            None => change@.merged(entry).label is None,
        },
        change.description_changed ==> match change.annotation.description {
            Some(description) => change@.merged(entry).description == Some(description@),
            None => change@.merged(entry).description is None,
        },
        change.tags_changed ==> change@.merged(entry).tags == change.annotation.tags@,
        !change.label_changed ==> change@.merged(entry).label == entry.label,
        !change.description_changed ==> change@.merged(entry).description == entry.description,
        !change.tags_changed ==> change@.merged(entry).tags == entry.tags,
{
}

/// Of two changes the later one decides each member that both flag, and neither undoes what only
/// the other flags.
pub proof fn law_later_change_decides(first: ChangeView, second: ChangeView, entry: AnnotationView)
    ensures
        second.label_changed ==> second.merged(first.merged(entry)).label
            == second.annotation.label,
        first.label_changed && !second.label_changed ==> second.merged(first.merged(entry)).label
            == first.annotation.label,
        second.description_changed ==> second.merged(first.merged(entry)).description
            == second.annotation.description,
        first.description_changed && !second.description_changed ==> second.merged(
            first.merged(entry),
        ).description == first.annotation.description,
        second.tags_changed ==> second.merged(first.merged(entry)).tags == second.annotation.tags,
        first.tags_changed && !second.tags_changed ==> second.merged(first.merged(entry)).tags
            == first.annotation.tags,
{
}

/// The changed entry has the name of the change, and an empty name where the change has none.
pub proof fn law_name_of_a_change(change: AnnotationChange<'_>)
    ensures
        change.name matches Some(name) ==> change.key_name() == name@,
        change.name is None ==> change.key_name().len() == 0,
{
}

/// An annotation says what its members hold. An empty text is an annotation; only where there is
/// no label, no description and no tag is nothing annotated.
pub proof fn law_annotation_says_what_it_holds(annotation: Annotation)
    ensures
        annotation.label matches Some(label) ==> annotation@.label == Some(label@),
        annotation.label is None ==> annotation@.label is None,
        annotation.description matches Some(description) ==> annotation@.description == Some(
            description@,
        ),
        annotation.description is None ==> annotation@.description is None,
        annotation@.tags == annotation.tags@,
        annotation@ == AnnotationView::nothing() <==> {
            &&& annotation.label is None
            &&& annotation.description is None
            &&& forall|key: Seq<char>| !(#[trigger] annotation.tags@.contains_key(key))
        },
{
    if annotation.label is None && annotation.description is None && forall|key: Seq<char>|
        !(#[trigger] annotation.tags@.contains_key(key)) {
        assert(annotation@.tags =~= Map::<Seq<char>, Seq<Seq<char>>>::empty());
    }
}

}
