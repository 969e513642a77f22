//! Stored objects and the selectors that filter them.
//!
//! An object is stored as an opaque JSON document plus index columns (name,
//! uid, resource version, node name, labels). The persistence itself lives
//! outside this library; what is decided here is which objects a selector
//! keeps.

use vstd::prelude::*;
use crate::json::{document_text, json_text, json_text_value, members_view, parse_json, str_of, Json, JsonView};
use crate::server::{event_name, EventType};
use crate::runtime::pairs_view;
use crate::text::{decimal, push_str, str_eq, string_from, u64_text};

verus! {

/// Why the store could not answer, with the underlying error's message.
#[derive(Debug, Clone, PartialEq, Eq)]
pub enum StoreError {
    /// The database reported an error.
    Sqlite(String),
    /// A document could not be encoded or decoded.
    Serde(String),
    /// A stored uid is not a valid uuid.
    Uid(String),
    /// The store's lock was poisoned.
    Lock,
}

/// The message of a store error.
pub open spec fn store_message(e: StoreError) -> Seq<char> {
    match e {
        StoreError::Sqlite(m) => "sqlite error: "@ + m@,
        StoreError::Serde(m) => "serialization error: "@ + m@,
        StoreError::Uid(m) => "stored uid is not a valid uuid: "@ + m@,
        StoreError::Lock => "store lock poisoned"@,
    }
}

impl StoreError {
    /// The message of this error.
    pub fn message(&self) -> (r: String)
        ensures
            r@ == store_message(*self),
    {
        match self {
            StoreError::Sqlite(m) => {
                let mut s = string_from("sqlite error: ");
                push_str(&mut s, m.as_str());
                s
            },
            StoreError::Serde(m) => {
                let mut s = string_from("serialization error: ");
                push_str(&mut s, m.as_str());
                s
            },
            StoreError::Uid(m) => {
                let mut s = string_from("stored uid is not a valid uuid: ");
                push_str(&mut s, m.as_str());
                s
            },
            StoreError::Lock => string_from("store lock poisoned"),
        }
    }
}

/// One stored object: its index columns and its document.
#[derive(Debug)]
pub struct StoredObject {
    pub kind: String,
    pub name: String,
    /// The object's uid, in hyphenated text form.
    pub uid: String,
    pub resource_version: u64,
    pub node_name: Option<String>,
    pub labels: Vec<(String, String)>,
    pub document: Json,
}

/// The value of a stored object.
pub struct StoredView {
    pub kind: Seq<char>,
    pub name: Seq<char>,
    pub uid: Seq<char>,
    pub resource_version: u64,
    pub node_name: Option<Seq<char>>,
    pub labels: Seq<(Seq<char>, Seq<char>)>,
    pub document: JsonView,
}

/// The text of an optional string.
pub open spec fn opt_str_view(o: Option<String>) -> Option<Seq<char>> {
    match o {
        Some(s) => Some(s@),
        None => None,
    }
}

impl View for StoredObject {
    type V = StoredView;

    open spec fn view(&self) -> StoredView {
        StoredView {
            kind: self.kind@,
            name: self.name@,
            uid: self.uid@,
            resource_version: self.resource_version,
            node_name: opt_str_view(self.node_name),
            labels: pairs_view(self.labels@),
            document: self.document@,
        }
    }
}

/// The values of a list of stored objects.
pub open spec fn stored_view(objs: Seq<StoredObject>) -> Seq<StoredView> {
    objs.map_values(|o: StoredObject| o@)
}

/// A copy of an optional string.
pub fn copy_opt_string(o: &Option<String>) -> (r: Option<String>)
    ensures
        opt_str_view(r) == opt_str_view(*o),
{
    match o {
        Some(s) => Some(s.clone()),
        None => None,
    }
}

impl StoredObject {
    /// A copy of this object.
    pub fn duplicate(&self) -> (r: StoredObject)
        ensures
            r@ == self@,
    {
        StoredObject {
            kind: self.kind.clone(),
            name: self.name.clone(),
            uid: self.uid.clone(),
            resource_version: self.resource_version,
            node_name: copy_opt_string(&self.node_name),
            labels: crate::runtime::copy_pairs(&self.labels),
            document: self.document.deep_clone(),
        }
    }
}

/// Which objects a list keeps.
#[derive(Debug, Clone)]
pub struct Selector {
    /// Equality label matches (all must hold).
    pub labels: Vec<(String, String)>,
    /// Field selector on `spec.nodeName`.
    pub node_name: Option<String>,
}

/// The value of the first label of `labels` named `key`.
pub open spec fn label_value(labels: Seq<(Seq<char>, Seq<char>)>, key: Seq<char>) -> Option<Seq<char>>
    decreases labels.len(),
{
    if labels.len() == 0 {
        None
    } else if labels[0].0 == key {
        Some(labels[0].1)
    } else {
        label_value(labels.drop_first(), key)
    }
}

/// Whether an object with these index columns passes the selector: its node
/// is the selected one (when one is selected) and every selected label is
/// present with the selected value.
pub open spec fn selects(
    want_labels: Seq<(Seq<char>, Seq<char>)>,
    want_node: Option<Seq<char>>,
    node_name: Option<Seq<char>>,
    labels: Seq<(Seq<char>, Seq<char>)>,
) -> bool {
    &&& (want_node matches Some(n) ==> node_name == Some(n))
    &&& forall|i: int| 0 <= i < want_labels.len() ==> label_value(labels, (#[trigger] want_labels[i]).0) == Some(want_labels[i].1)
}

/// A node selector keeps only objects on that node: when a selector selects
/// node `n`, an object bound to another node, or to none, never passes it,
/// whatever the labels; and with no node and no labels selected, every
/// object passes.
pub proof fn law_node_selector_keeps_only_that_node(
    want_labels: Seq<(Seq<char>, Seq<char>)>,
    n: Seq<char>,
    node_name: Option<Seq<char>>,
    labels: Seq<(Seq<char>, Seq<char>)>,
)
    ensures
        node_name != Some(n) ==> !selects(want_labels, Some(n), node_name, labels),
        selects(want_labels, Some(n), node_name, labels) ==> node_name == Some(n),
        selects(Seq::empty(), None, node_name, labels),
{
}

/// A label selector keeps only objects carrying every selected label: an
/// object that passes has, for each selected `key=value`, a label `key`
/// with that value; an object missing one of them never passes.
pub proof fn law_label_selector_requires_each_label(
    want_labels: Seq<(Seq<char>, Seq<char>)>,
    want_node: Option<Seq<char>>,
    node_name: Option<Seq<char>>,
    labels: Seq<(Seq<char>, Seq<char>)>,
)
    ensures
        selects(want_labels, want_node, node_name, labels) ==> forall|i: int| 0 <= i < want_labels.len()
            ==> has_label(labels, #[trigger] want_labels[i]),
        (exists|i: int| 0 <= i < want_labels.len() && !has_label(labels, #[trigger] want_labels[i]))
            ==> !selects(want_labels, want_node, node_name, labels),
{
    assert forall|i: int| 0 <= i < want_labels.len() && label_value(labels, (#[trigger] want_labels[i]).0) == Some(want_labels[i].1)
        implies has_label(labels, want_labels[i]) by {
        lemma_label_value_present(labels, want_labels[i].0);
    }
}

/// Whether `labels` lists the pair `kv`.
pub open spec fn has_label(labels: Seq<(Seq<char>, Seq<char>)>, kv: (Seq<char>, Seq<char>)) -> bool {
    exists|j: int| 0 <= j < labels.len() && #[trigger] labels[j] == kv
}

proof fn lemma_label_value_present(labels: Seq<(Seq<char>, Seq<char>)>, key: Seq<char>)
    ensures
        label_value(labels, key) matches Some(v) ==> exists|j: int| 0 <= j < labels.len() && #[trigger] labels[j] == (key, v),
    decreases labels.len(),
{
    if labels.len() > 0 && labels[0].0 != key {
        lemma_label_value_present(labels.drop_first(), key);
        if let Some(v) = label_value(labels, key) {
            let j = choose|j: int| 0 <= j < labels.drop_first().len() && #[trigger] labels.drop_first()[j] == (key, v);
            assert(labels[j + 1] == (key, v));
        }
    } else if labels.len() > 0 {
        assert(labels[0] == (key, labels[0].1));
    }
}

/// The value of the first label of `labels` named `key`.
pub fn find_label<'a>(labels: &'a Vec<(String, String)>, key: &str) -> (r: Option<&'a String>)
    ensures
        label_value(pairs_view(labels@), key@) == opt_str_view(match r {
            Some(s) => Some(*s),
            None => None,
        }),
{
    let ghost lv = pairs_view(labels@);
    let mut i: usize = 0;
    assert(lv.skip(0) =~= lv);
    while i < labels.len()
        invariant
            lv == pairs_view(labels@),
            0 <= i <= labels@.len(),
            label_value(lv, key@) == label_value(lv.skip(i as int), key@),
        decreases labels@.len() - i,
    {
        assert(lv.skip(i as int)[0] == lv[i as int]);
        if str_eq(labels[i].0.as_str(), key) {
            return Some(&labels[i].1);
        }
        assert(lv.skip(i as int).drop_first() =~= lv.skip(i as int + 1));
        i += 1;
    }
    assert(lv.skip(i as int).len() == 0);
    None
}

impl Default for Selector {
    fn default() -> (r: Selector)
        ensures
            r.labels@.len() == 0,
            r.node_name is None,
    {
        Selector { labels: Vec::new(), node_name: None }
    }
}

impl Selector {
    /// Whether an object with these index columns passes this selector.
    pub fn matches(&self, node_name: &Option<String>, labels: &Vec<(String, String)>) -> (r: bool)
        ensures
            r == selects(pairs_view(self.labels@), opt_str_view(self.node_name), opt_str_view(*node_name), pairs_view(labels@)),
    {
        match &self.node_name {
            Some(want) => match node_name {
                Some(have) => if !str_eq(want.as_str(), have.as_str()) {
                    return false;
                },
                None => return false,
            },
            None => {},
        }
        let ghost want = pairs_view(self.labels@);
        let mut i: usize = 0;
        while i < self.labels.len()
            invariant
                want == pairs_view(self.labels@),
                0 <= i <= self.labels@.len(),
                forall|j: int| 0 <= j < i ==> label_value(pairs_view(labels@), (#[trigger] want[j]).0) == Some(want[j].1),
            decreases self.labels@.len() - i,
        {
            let ok = match find_label(labels, self.labels[i].0.as_str()) {
                Some(v) => str_eq(v.as_str(), self.labels[i].1.as_str()),
                None => false,
            };
            if !ok {
                assert(label_value(pairs_view(labels@), want[i as int].0) != Some(want[i as int].1));
                return false;
            }
            i += 1;
        }
        true
    }
}

/// The message of a compare-and-swap that found resource version `actual`
/// where `expected` was asked for.
pub open spec fn conflict_text(actual: u64, expected: u64) -> Seq<char> {
    "resource version conflict: expected "@ + decimal(expected as nat) + ", found "@ + decimal(actual as nat)
}

/// Decides a compare-and-swap write: it conflicts exactly when an object is
/// stored and its resource version is not the `expected` one; the answer is
/// then the conflict's message, and the write must not happen. With no
/// object stored, or the expected version in place, the write goes ahead.
pub fn version_conflict(actual: Option<u64>, expected: u64) -> (r: Option<String>)
    ensures
        r is Some <==> (actual matches Some(a) && a != expected),
        r matches Some(m) ==> (actual matches Some(a) && m@ == conflict_text(a, expected)),
{
    match actual {
        Some(a) => if a != expected {
            let mut m = string_from("resource version conflict: expected ");
            let e = u64_text(expected);
            push_str(&mut m, e.as_str());
            push_str(&mut m, ", found ");
            let t = u64_text(a);
            push_str(&mut m, t.as_str());
            Some(m)
        } else {
            None
        },
        None => None,
    }
}

/// Whether every member of an object holds a string.
pub open spec fn all_strings(ms: Seq<(Seq<char>, JsonView)>) -> bool {
    forall|i: int| 0 <= i < ms.len() ==> (#[trigger] ms[i]).1 is Str
}

/// The labels a stored labels document denotes: an object whose members are
/// all strings, member by member, or `None` for anything else.
pub open spec fn labels_decoded(v: Option<JsonView>) -> Option<Seq<(Seq<char>, Seq<char>)>> {
    match v {
        Some(JsonView::Object(ms)) => if all_strings(ms) {
            Some(ms.map_values(|m: (Seq<char>, JsonView)| (m.0, m.1->Str_0)))
        } else {
            None
        },
        _ => None,
    }
}

/// The labels document stored for a list of labels: an object with one
/// string member per label.
pub open spec fn labels_json(ls: Seq<(Seq<char>, Seq<char>)>) -> JsonView {
    JsonView::Object(ls.map_values(|p: (Seq<char>, Seq<char>)| (p.0, JsonView::Str(p.1))))
}

/// The text stored for an object's labels.
pub fn labels_text(labels: &Vec<(String, String)>) -> (r: String)
    ensures
        r@ == json_text(labels_json(pairs_view(labels@))),
{
    let mut members: Vec<(String, Json)> = Vec::new();
    let mut i: usize = 0;
    while i < labels.len()
        invariant
            0 <= i <= labels@.len(),
            members@.len() == i,
            forall|j: int| 0 <= j < i ==> (#[trigger] members@[j]).0@ == labels@[j].0@
                && members@[j].1@ == JsonView::Str(labels@[j].1@),
        decreases labels@.len() - i,
    {
        let (k, v) = &labels[i];
        members.push((k.clone(), Json::string(v.as_str())));
        i += 1;
    }
    let doc = Json::object(members);
    assert(members_view(members@) =~= labels_json(pairs_view(labels@))->Object_0);
    document_text(&doc)
}

/// Reads a stored labels text: the labels, or `None` when the text is not
/// JSON, not an object, or has a member that is not a string.
fn decode_labels(text: &str) -> (r: Option<Vec<(String, String)>>)
    ensures
        match r {
            Some(ls) => labels_decoded(json_text_value(text@)) == Some(pairs_view(ls@)),
            None => labels_decoded(json_text_value(text@)) is None,
        },
{
    let doc = match parse_json(text) {
        Ok(d) => d,
        Err(_) => return None,
    };
    let ms = match doc.as_object() {
        Some(m) => m,
        None => return None,
    };
    let ghost mv = members_view(ms@);
    let mut out: Vec<(String, String)> = Vec::new();
    let mut i: usize = 0;
    while i < ms.len()
        invariant
            mv == members_view(ms@),
            0 <= i <= ms@.len(),
            json_text_value(text@) == Some(JsonView::Object(mv)),
            out@.len() == i,
            forall|j: int| 0 <= j < i ==> (#[trigger] mv[j]).1 == JsonView::Str(out@[j].1@) && mv[j].0 == out@[j].0@,
        decreases ms@.len() - i,
    {
        let (k, v) = &ms[i];
        assert(mv[i as int] == (k@, v@));
        match v.as_str() {
            Some(t) => {
                out.push((k.clone(), t.clone()));
            },
            None => {
                assert(!(mv[i as int].1 is Str));
                assert(!all_strings(mv));
                return None;
            },
        }
        i += 1;
    }
    assert(all_strings(mv));
    assert(pairs_view(out@) =~= mv.map_values(|m: (Seq<char>, JsonView)| (m.0, m.1->Str_0)));
    Some(out)
}

/// Rebuilds a stored object from one database row: its index columns as
/// given, its labels read from `labels_text` (an object of strings) and its
/// document read from `document_text`. A text that does not read so is a
/// `Serde` error, as is a label whose value is not a string.
pub fn decode_row(
    kind: &str,
    name: String,
    uid: String,
    resource_version: u64,
    node_name: Option<String>,
    labels_text: &str,
    document_text: &str,
) -> (r: Result<StoredObject, StoreError>)
    ensures
        r is Ok <==> (labels_decoded(json_text_value(labels_text@)) is Some && json_text_value(document_text@) is Some),
        r matches Err(e) ==> e is Serde,
        r matches Ok(o) ==> {
            &&& o@.kind == kind@
            &&& o@.name == name@
            &&& o@.uid == uid@
            &&& o@.resource_version == resource_version
            &&& o@.node_name == opt_str_view(node_name)
            &&& labels_decoded(json_text_value(labels_text@)) == Some(o@.labels)
            &&& json_text_value(document_text@) == Some(o@.document)
        },
{
    let labels = match decode_labels(labels_text) {
        Some(ls) => ls,
        None => return Err(StoreError::Serde(string_from("stored labels are not an object of strings"))),
    };
    let document = match parse_json(document_text) {
        Ok(d) => d,
        Err(m) => return Err(StoreError::Serde(m)),
    };
    Ok(StoredObject {
        kind: string_from(kind),
        name,
        uid,
        resource_version,
        node_name,
        labels,
        document,
    })
}

/// The event type a stored event-type text names, if any.
pub open spec fn event_type_of(text: Seq<char>) -> Option<EventType> {
    if text == event_name(EventType::Added) {
        Some(EventType::Added)
    } else if text == event_name(EventType::Modified) {
        Some(EventType::Modified)
    } else if text == event_name(EventType::Deleted) {
        Some(EventType::Deleted)
    } else {
        None
    }
}

/// Reads one stored event: its type from `type_text` (one of the event
/// names) and its document from `document_text`; a `Serde` error when
/// either does not read.
pub fn decode_event(type_text: &str, document_text: &str) -> (r: Result<(EventType, Json), StoreError>)
    ensures
        r is Ok <==> (event_type_of(type_text@) is Some && json_text_value(document_text@) is Some),
        r matches Err(e) ==> e is Serde,
        r matches Ok((t, d)) ==> event_type_of(type_text@) == Some(t) && json_text_value(document_text@) == Some(d@),
{
    let t = if str_eq(type_text, crate::server::event_type_name(EventType::Added)) {
        EventType::Added
    } else if str_eq(type_text, crate::server::event_type_name(EventType::Modified)) {
        EventType::Modified
    } else if str_eq(type_text, crate::server::event_type_name(EventType::Deleted)) {
        EventType::Deleted
    } else {
        let mut m = string_from("unknown event type: ");
        push_str(&mut m, type_text);
        return Err(StoreError::Serde(m));
    };
    match parse_json(document_text) {
        Ok(d) => Ok((t, d)),
        Err(m) => Err(StoreError::Serde(m)),
    }
}

} // verus!
