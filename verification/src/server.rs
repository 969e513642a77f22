//! The API server's decisions: which kind a path names, what the envelope of
//! a document says, how server-owned fields are stamped, how list selectors
//! are read, what replace, status update and delete store, and who may call
//! what. Documents are handled as JSON; only the envelope is interpreted.

use vstd::prelude::*;
use crate::auth::Identity;
use crate::json::{
    empty_object_view, jset, jset_in, json_get, members_view, setdefault, setdefault_in, str_of, u64_of,
    Json, JsonView,
};
use crate::controllers::{get2, get2_ref};
use crate::store::{label_value, opt_str_view, StoreError, StoredObject, StoredView};
use crate::runtime::pairs_view;
use crate::text::{non_empty, rows, split_all, split_non_empty, chars_of, push_str, skip_chars, starts_with, split_once, split_once_spec, str_eq, string_from, string_of, take_chars};

verus! {

/// Why a request failed; each becomes an HTTP status and an error message.
#[derive(Debug, Clone, PartialEq, Eq)]
pub enum ApiError {
    NotFound,
    BadRequest(String),
    Unauthorized,
    Forbidden,
    Conflict(String),
    Internal(String),
}

/// The HTTP status of an error.
pub open spec fn status_of(e: ApiError) -> u16 {
    match e {
        ApiError::NotFound => 404,
        ApiError::BadRequest(_) => 400,
        ApiError::Unauthorized => 401,
        ApiError::Forbidden => 403,
        ApiError::Conflict(_) => 409,
        ApiError::Internal(_) => 500,
    }
}

/// The message of an error.
pub open spec fn message_of(e: ApiError) -> Seq<char> {
    match e {
        ApiError::NotFound => "not found"@,
        ApiError::BadRequest(m) => m@,
        ApiError::Unauthorized => "unauthorized"@,
        ApiError::Forbidden => "forbidden"@,
        ApiError::Conflict(m) => m@,
        ApiError::Internal(m) => m@,
    }
}

impl ApiError {
    /// The HTTP status code of this error.
    pub fn status(&self) -> (r: u16)
        ensures
            r == status_of(*self),
    {
        match self {
            ApiError::NotFound => 404,
            ApiError::BadRequest(_) => 400,
            ApiError::Unauthorized => 401,
            ApiError::Forbidden => 403,
            ApiError::Conflict(_) => 409,
            ApiError::Internal(_) => 500,
        }
    }

    /// The response body of this error: `{"error": message}`.
    pub fn body(&self) -> (r: Json)
        ensures
            r@ == JsonView::Object(seq![("error"@, JsonView::Str(message_of(*self)))]),
    {
        let msg = match self {
            ApiError::NotFound => string_from("not found"),
            ApiError::BadRequest(m) => m.clone(),
            ApiError::Unauthorized => string_from("unauthorized"),
            ApiError::Forbidden => string_from("forbidden"),
            ApiError::Conflict(m) => m.clone(),
            ApiError::Internal(m) => m.clone(),
        };
        Json::single_member("error", Json::string(msg.as_str()))
    }

    /// The error a store failure becomes: an internal error carrying the
    /// store's message.
    pub fn from_store(e: &StoreError) -> (r: ApiError)
        ensures
            r matches ApiError::Internal(m) && m@ == crate::store::store_message(*e),
    {
        ApiError::Internal(e.message())
    }
}

/// What happened to an object, as a watch reports it.
#[derive(Debug, Clone, Copy, PartialEq, Eq, Structural)]
pub enum EventType {
    Added,
    Modified,
    Deleted,
}

/// The name of an event type in a watch frame.
pub open spec fn event_name(t: EventType) -> Seq<char> {
    match t {
        EventType::Added => "Added"@,
        EventType::Modified => "Modified"@,
        EventType::Deleted => "Deleted"@,
    }
}

/// The name of an event type in a watch frame.
pub fn event_type_name(t: EventType) -> (r: &'static str)
    ensures
        r@ == event_name(t),
{
    match t {
        EventType::Added => "Added",
        EventType::Modified => "Modified",
        EventType::Deleted => "Deleted",
    }
}

/// One watch frame: the event's type and the object.
pub open spec fn watch_frame_view(t: EventType, doc: JsonView) -> JsonView {
    JsonView::Object(seq![("type"@, JsonView::Str(event_name(t))), ("object"@, doc)])
}

/// Builds a watch frame, `{"type": .., "object": ..}`.
pub fn watch_frame(t: EventType, doc: &Json) -> (r: Json)
    ensures
        r@ == watch_frame_view(t, doc@),
{
    let mut f = Json::single_member("type", Json::string(event_type_name(t)));
    f.insert("object", doc.deep_clone());
    proof {
        reveal_strlit("type");
        reveal_strlit("object");
        assert("type"@ != "object"@) by {
            assert("type"@[0] != "object"@[0]);
        }
        let first = seq![("type"@, JsonView::Str(event_name(t)))];
        assert(first.drop_first() =~= Seq::<(Seq<char>, JsonView)>::empty());
        assert(crate::json::entries_set(first.drop_first(), "object"@, doc@) == seq![("object"@, doc@)]);
        assert(crate::json::entries_set(first, "object"@, doc@) =~= seq![first[0], ("object"@, doc@)]);
    }
    f
}

/// The stored kind for a plural path segment.
pub open spec fn kind_of(plural: Seq<char>) -> Option<Seq<char>> {
    if plural == "containers"@ {
        Some("Container"@)
    } else if plural == "workers"@ {
        Some("Worker"@)
    } else if plural == "leases"@ {
        Some("Lease"@)
    } else {
        None
    }
}

/// Maps a plural path segment to its stored kind; `None` for unknown ones.
pub fn kind_for(plural: &str) -> (r: Option<&'static str>)
    ensures
        match r {
            Some(k) => kind_of(plural@) == Some(k@),
            None => kind_of(plural@) is None,
        },
{
    if str_eq(plural, "containers") {
        Some("Container")
    } else if str_eq(plural, "workers") {
        Some("Worker")
    } else if str_eq(plural, "leases") {
        Some("Lease")
    } else {
        None
    }
}

/// `metadata.name`, when it is a string.
pub fn extract_name(doc: &Json) -> (r: Option<String>)
    ensures
        crate::store::opt_str_view(r) == str_of(get2(doc@, "metadata"@, "name"@)),
{
    match get2_ref(doc, "metadata", "name") {
        Some(v) => match v.as_str() {
            Some(s) => Some(s.clone()),
            None => None,
        },
        None => None,
    }
}

/// `spec.nodeName`, when it is a string.
pub fn extract_node_name(doc: &Json) -> (r: Option<String>)
    ensures
        crate::store::opt_str_view(r) == str_of(get2(doc@, "spec"@, "nodeName"@)),
{
    match get2_ref(doc, "spec", "nodeName") {
        Some(v) => match v.as_str() {
            Some(s) => Some(s.clone()),
            None => None,
        },
        None => None,
    }
}

/// The string-valued members of a labels object, in order.
pub open spec fn string_members(m: Seq<(Seq<char>, JsonView)>) -> Seq<(Seq<char>, Seq<char>)>
    decreases m.len(),
{
    if m.len() == 0 {
        Seq::empty()
    } else {
        string_members(m.drop_last()) + match m.last().1 {
            JsonView::Str(s) => seq![(m.last().0, s)],
            _ => Seq::empty(),
        }
    }
}

/// The labels of a document: the string-valued members of
/// `metadata.labels`, when that is an object.
pub open spec fn labels_of(doc: JsonView) -> Seq<(Seq<char>, Seq<char>)> {
    match get2(doc, "metadata"@, "labels"@) {
        Some(JsonView::Object(m)) => string_members(m),
        _ => Seq::empty(),
    }
}

/// The labels of a document, `metadata.labels`, keeping string values only.
pub fn extract_labels(doc: &Json) -> (r: Vec<(String, String)>)
    ensures
        crate::runtime::pairs_view(r@) == labels_of(doc@),
{
    let mut out: Vec<(String, String)> = Vec::new();
    let m = match get2_ref(doc, "metadata", "labels") {
        Some(v) => match v.as_object() {
            Some(m) => m,
            None => return out,
        },
        None => return out,
    };
    let ghost mv = members_view(m@);
    let mut i: usize = 0;
    while i < m.len()
        invariant
            mv == members_view(m@),
            get2(doc@, "metadata"@, "labels"@) == Some(JsonView::Object(mv)),
            0 <= i <= m@.len(),
            crate::runtime::pairs_view(out@) == string_members(mv.take(i as int)),
        decreases m@.len() - i,
    {
        let ghost before = crate::runtime::pairs_view(out@);
        assert(mv.take(i as int + 1).drop_last() =~= mv.take(i as int));
        assert(mv.take(i as int + 1).last() == mv[i as int]);
        match m[i].1.as_str() {
            Some(s) => {
                out.push((m[i].0.clone(), s.clone()));
                assert(crate::runtime::pairs_view(out@) =~= before + seq![(mv[i as int].0, s@)]);
            },
            None => {
                assert(crate::runtime::pairs_view(out@) =~= before + Seq::<(Seq<char>, Seq<char>)>::empty());
            },
        }
        i += 1;
    }
    assert(mv.take(m@.len() as int) =~= mv);
    out
}

/// Whether a document carries at least one finalizer.
pub open spec fn has_finalizers_spec(doc: JsonView) -> bool {
    match get2(doc, "metadata"@, "finalizers"@) {
        Some(JsonView::Array(a)) => a.len() > 0,
        _ => false,
    }
}

/// Whether a document carries at least one finalizer.
pub fn has_finalizers(doc: &Json) -> (r: bool)
    ensures
        r == has_finalizers_spec(doc@),
{
    match get2_ref(doc, "metadata", "finalizers") {
        Some(v) => match v.as_array() {
            Some(a) => a.len() > 0,
            None => false,
        },
        None => false,
    }
}

/// Whether a document is marked for deletion: `metadata.deletionTimestamp`
/// is present and not `null`.
pub open spec fn marked_for_deletion(doc: JsonView) -> bool {
    match get2(doc, "metadata"@, "deletionTimestamp"@) {
        Some(v) => !(v is Null),
        None => false,
    }
}

/// Whether a document is marked for deletion.
pub fn is_marked_for_deletion(doc: &Json) -> (r: bool)
    ensures
        r == marked_for_deletion(doc@),
{
    match get2_ref(doc, "metadata", "deletionTimestamp") {
        Some(v) => !v.is_null(),
        None => false,
    }
}

// ---------------------------------------------------------------------------
// Server-owned envelope fields
// ---------------------------------------------------------------------------

/// The `metadata` object of a document, or an empty one.
pub open spec fn meta_object(doc: JsonView) -> JsonView {
    match json_get(doc, "metadata"@) {
        Some(JsonView::Object(m)) => JsonView::Object(m),
        _ => empty_object_view(),
    }
}

/// `metadata` with the server-owned fields stamped: uid and resource version
/// set; creation time, labels, annotations and finalizers defaulted.
pub open spec fn stamped_meta(m: JsonView, uid: Seq<char>, rv: u64, now: Seq<char>) -> JsonView {
    setdefault(
        setdefault(
            setdefault(
                setdefault(
                    jset(jset(m, "uid"@, JsonView::Str(uid)), "resourceVersion"@, JsonView::UInt(rv)),
                    "creationTimestamp"@,
                    JsonView::Str(now),
                ),
                "labels"@,
                empty_object_view(),
            ),
            "annotations"@,
            empty_object_view(),
        ),
        "finalizers"@,
        JsonView::Array(Seq::empty()),
    )
}

/// A document with its envelope stamped (a `null` document becomes an object).
pub open spec fn stamped(doc: JsonView, uid: Seq<char>, rv: u64, now: Seq<char>) -> JsonView {
    jset(
        if doc is Null { empty_object_view() } else { doc },
        "metadata"@,
        stamped_meta(meta_object(doc), uid, rv, now),
    )
}

/// Stamps the server-owned envelope fields into a document: `metadata`
/// becomes an object if it is not one; `uid` and `resourceVersion` are set;
/// `creationTimestamp` (to `now`), `labels`, `annotations` and `finalizers`
/// are added when missing.
pub fn stamp_meta(doc: &mut Json, uid: &str, rv: u64, now: &str)
    requires
        old(doc)@ is Object || old(doc)@ is Null,
    ensures
        final(doc)@ == stamped(old(doc)@, uid@, rv, now@),
{
    let mut meta = match doc.get("metadata") {
        Some(m) => if m.is_object() {
            m.deep_clone()
        } else {
            Json::empty_object()
        },
        None => Json::empty_object(),
    };
    meta.insert("uid", Json::string(uid));
    meta.insert("resourceVersion", Json::UInt(rv));
    meta.insert_if_absent("creationTimestamp", Json::string(now));
    meta.insert_if_absent("labels", Json::empty_object());
    meta.insert_if_absent("annotations", Json::empty_object());
    let empty: Vec<Json> = Vec::new();
    let arr = Json::array(empty);
    assert(arr@ == JsonView::Array(Seq::empty())) by {
        assert(crate::json::items_view(empty@) =~= Seq::<JsonView>::empty());
    }
    meta.insert_if_absent("finalizers", arr);
    doc.set_index("metadata", meta);
}

// ---------------------------------------------------------------------------
// Requests: bearer tokens, paths and access
// ---------------------------------------------------------------------------

/// The token of an `Authorization: Bearer <token>` header value.
pub open spec fn bearer_of(value: Seq<char>) -> Option<Seq<char>> {
    if value.len() >= 7 && value.take(7) == "Bearer "@ {
        Some(value.skip(7))
    } else {
        None
    }
}

/// The bearer token of an `Authorization` header value, if it has one.
pub fn bearer(authorization: Option<&str>) -> (r: Option<String>)
    ensures
        opt_str_view(r) == match authorization {
            Some(v) => bearer_of(v@),
            None => None,
        },
{
    let v = match authorization {
        Some(v) => chars_of(v),
        None => return None,
    };
    proof {
        reveal_strlit("Bearer ");
    }
    if !starts_with(&v, "Bearer ") {
        return None;
    }
    let rest = skip_chars(&v, 7);
    Some(string_of(rest.as_slice()))
}

/// The `(plural, name)` of a path `/api/v1/{plural}/{name}[/...]`, when it
/// names one (a non-empty name).
pub open spec fn path_parts(path: Seq<char>) -> Option<(Seq<char>, Seq<char>)> {
    if path.len() >= 8 && path.take(8) == "/api/v1/"@ {
        match split_once_spec(path.skip(8), '/') {
            Some((plural, after)) => {
                let name = match split_once_spec(after, '/') {
                    Some((n, _)) => n,
                    None => after,
                };
                if name.len() > 0 {
                    Some((plural, name))
                } else {
                    None
                }
            },
            None => None,
        }
    } else {
        None
    }
}

/// Extracts `(plural, name)` from `/api/v1/{plural}/{name}[/...]`.
pub fn named_path(path: &str) -> (r: Option<(String, String)>)
    ensures
        match r {
            Some((p, n)) => path_parts(path@) == Some((p@, n@)),
            None => path_parts(path@) is None,
        },
{
    let v = chars_of(path);
    proof {
        reveal_strlit("/api/v1/");
    }
    if !starts_with(&v, "/api/v1/") {
        return None;
    }
    let rest = skip_chars(&v, 8);
    let (plural, after) = match split_once(&rest, '/') {
        Some(p) => p,
        None => return None,
    };
    let name = match split_once(&after, '/') {
        Some((n, _)) => n,
        None => after,
    };
    if name.len() == 0 {
        return None;
    }
    Some((string_of(plural.as_slice()), string_of(name.as_slice())))
}

/// Whether a worker is refused a path: it names a `workers` or `leases`
/// object other than the worker's own.
pub open spec fn worker_refused(who: Seq<char>, path: Seq<char>) -> bool {
    match path_parts(path) {
        Some((plural, name)) => (plural == "workers"@ || plural == "leases"@) && name != who,
        None => false,
    }
}

/// Decides an `/api/v1` request: refused while the server has no admin or
/// without a valid credential; the admin may do anything; a worker may
/// address only its own `Worker` and `Lease` objects by name.
pub fn authorize_api(initialized: bool, identity: Option<&Identity>, path: &str) -> (r: Result<(), ApiError>)
    ensures
        (r matches Err(ApiError::Unauthorized)) <==> (!initialized || identity is None),
        (r matches Err(ApiError::Forbidden)) <==> (initialized && (identity matches Some(Identity::Worker(w)) && worker_refused(w@, path@))),
        r is Ok <==> (initialized && identity is Some && !(identity matches Some(Identity::Worker(w)) && worker_refused(w@, path@))),
{
    if !initialized {
        return Err(ApiError::Unauthorized);
    }
    match identity {
        None => Err(ApiError::Unauthorized),
        Some(Identity::Admin) => Ok(()),
        Some(Identity::Worker(who)) => match named_path(path) {
            Some((plural, name)) => {
                if (str_eq(plural.as_str(), "workers") || str_eq(plural.as_str(), "leases")) && !str_eq(
                    name.as_str(),
                    who.as_str(),
                ) {
                    Err(ApiError::Forbidden)
                } else {
                    Ok(())
                }
            },
            None => Ok(()),
        },
    }
}

/// Decides an admin-only request: refused while the server has no admin or
/// without a valid credential; forbidden to workers.
pub fn authorize_admin(initialized: bool, identity: Option<&Identity>) -> (r: Result<(), ApiError>)
    ensures
        (r matches Err(ApiError::Unauthorized)) <==> (!initialized || identity is None),
        (r matches Err(ApiError::Forbidden)) <==> (initialized && identity matches Some(Identity::Worker(_))),
        r is Ok <==> (initialized && identity matches Some(Identity::Admin)),
{
    if !initialized {
        return Err(ApiError::Unauthorized);
    }
    match identity {
        Some(Identity::Admin) => Ok(()),
        Some(Identity::Worker(_)) => Err(ApiError::Forbidden),
        None => Err(ApiError::Unauthorized),
    }
}

// ---------------------------------------------------------------------------
// Writes: replace, status update, delete, registration
// ---------------------------------------------------------------------------

/// Plans a create of an object of kind `kind` from `body` with a fresh uid
/// at resource version `rv`: the body must be an object with a string
/// `metadata.name`; the stored document is the stamped body.
pub fn plan_create(kind: &str, body: &Json, uid: &str, rv: u64, now: &str) -> (r: Result<StoredObject, ApiError>)
    ensures
        match r {
            Ok(o) => {
                &&& body@ is Object
                &&& str_of(get2(body@, "metadata"@, "name"@)) == Some(o@.name)
                &&& o@ == object_for(kind@, o@.name, uid@, rv, stamped(body@, uid@, rv, now@))
            },
            Err(e) => if !(body@ is Object) {
                e matches ApiError::BadRequest(m) && m@ == "body must be a JSON object"@
            } else {
                str_of(get2(body@, "metadata"@, "name"@)) is None && (e matches ApiError::BadRequest(m) && m@
                    == "metadata.name required"@)
            },
        },
{
    if !body.is_object() {
        return Err(ApiError::BadRequest(string_from("body must be a JSON object")));
    }
    let name = match extract_name(body) {
        Some(n) => n,
        None => return Err(ApiError::BadRequest(string_from("metadata.name required"))),
    };
    let mut doc = body.deep_clone();
    stamp_meta(&mut doc, uid, rv, now);
    Ok(StoredObject {
        kind: string_from(kind),
        name,
        uid: string_from(uid),
        resource_version: rv,
        node_name: extract_node_name(&doc),
        labels: extract_labels(&doc),
        document: doc,
    })
}

/// The optimistic-concurrency precondition of a replace body:
/// `metadata.resourceVersion`, when it is a non-negative integer.
pub open spec fn precondition_of(body: JsonView) -> Option<u64> {
    u64_of(get2(body, "metadata"@, "resourceVersion"@))
}

/// The document a replace stores: the body stamped with the existing uid and
/// the new resource version, its name forced to the path's, the existing
/// creation time kept, and an existing deletion mark kept unless the body
/// says otherwise.
pub open spec fn replaced_doc(
    body: JsonView,
    name: Seq<char>,
    existing: JsonView,
    uid: Seq<char>,
    rv: u64,
    now: Seq<char>,
) -> JsonView {
    let d1 = stamped(body, uid, rv, now);
    let d2 = jset_in(d1, "metadata"@, "name"@, JsonView::Str(name));
    let d3 = match get2(existing, "metadata"@, "creationTimestamp"@) {
        Some(ct) => jset_in(d2, "metadata"@, "creationTimestamp"@, ct),
        None => d2,
    };
    match get2(existing, "metadata"@, "deletionTimestamp"@) {
        Some(dt) => if get2(d3, "metadata"@, "deletionTimestamp"@) is None && !(dt is Null) {
            jset_in(d3, "metadata"@, "deletionTimestamp"@, dt)
        } else {
            d3
        },
        None => d3,
    }
}

/// What a replace writes.
#[derive(Debug)]
pub enum ReplacePlan {
    /// The object was marked for deletion and its last finalizer is gone:
    /// remove it (the document is what the client receives).
    Delete(Json),
    /// Store the object, checking its resource version first when the client
    /// gave one.
    Put { object: StoredObject, expected: Option<u64> },
}

/// The object stored for a document under a kind, name, uid and version.
pub open spec fn object_for(kind: Seq<char>, name: Seq<char>, uid: Seq<char>, rv: u64, doc: JsonView) -> StoredView {
    StoredView {
        kind,
        name,
        uid,
        resource_version: rv,
        node_name: str_of(get2(doc, "spec"@, "nodeName"@)),
        labels: labels_of(doc),
        document: doc,
    }
}

/// Plans a replace of `existing` (of kind `kind`, at the path's `name`) by
/// `body` at resource version `rv`: the document is `replaced_doc`; it is
/// deleted when marked for deletion with no finalizer left, else stored with
/// the body's resource version as precondition.
pub fn plan_replace(kind: &str, name: &str, body: &Json, existing: &StoredObject, rv: u64, now: &str) -> (r: ReplacePlan)
    requires
        body@ is Object,
    ensures
        ({
            let d = replaced_doc(body@, name@, existing.document@, existing.uid@, rv, now@);
            match r {
                ReplacePlan::Delete(doc) => doc@ == d && marked_for_deletion(d) && !has_finalizers_spec(d),
                ReplacePlan::Put { object, expected } => {
                    &&& !(marked_for_deletion(d) && !has_finalizers_spec(d))
                    &&& object@ == object_for(kind@, name@, existing.uid@, rv, d)
                    &&& expected == precondition_of(body@)
                },
            }
        }),
{
    let expected = match get2_ref(body, "metadata", "resourceVersion") {
        Some(v) => v.as_u64(),
        None => None,
    };
    let mut doc = body.deep_clone();
    stamp_meta(&mut doc, existing.uid.as_str(), rv, now);
    doc.update_member("metadata", "name", Json::string(name));
    match get2_ref(&existing.document, "metadata", "creationTimestamp") {
        Some(ct) => doc.update_member("metadata", "creationTimestamp", ct.deep_clone()),
        None => {},
    }
    match get2_ref(&existing.document, "metadata", "deletionTimestamp") {
        Some(dt) => {
            let absent = match get2_ref(&doc, "metadata", "deletionTimestamp") {
                Some(_) => false,
                None => true,
            };
            if absent && !dt.is_null() {
                doc.update_member("metadata", "deletionTimestamp", dt.deep_clone());
            }
        },
        None => {},
    }
    if is_marked_for_deletion(&doc) && !has_finalizers(&doc) {
        return ReplacePlan::Delete(doc);
    }
    let object = StoredObject {
        kind: string_from(kind),
        name: string_from(name),
        uid: existing.uid.clone(),
        resource_version: rv,
        node_name: extract_node_name(&doc),
        labels: extract_labels(&doc),
        document: doc,
    };
    ReplacePlan::Put { object, expected }
}

/// The document after a status update: `status` replaced by the body's
/// `status` (or the whole body when it has none), `metadata.resourceVersion`
/// set to `rv`.
pub open spec fn status_doc(existing: JsonView, body: JsonView, rv: u64) -> JsonView {
    let status = match json_get(body, "status"@) {
        Some(st) => st,
        None => body,
    };
    jset_in(jset(existing, "status"@, status), "metadata"@, "resourceVersion"@, JsonView::UInt(rv))
}

/// Applies a status update to a stored object at resource version `rv`.
pub fn apply_status(existing: &StoredObject, body: &Json, rv: u64) -> (r: StoredObject)
    ensures
        r@ == (StoredView {
            resource_version: rv,
            document: status_doc(existing.document@, body@, rv),
            ..existing@
        }),
{
    let status = match body.get("status") {
        Some(st) => st.deep_clone(),
        None => body.deep_clone(),
    };
    let mut o = existing.duplicate();
    o.document.insert("status", status);
    o.document.update_member("metadata", "resourceVersion", Json::UInt(rv));
    o.resource_version = rv;
    o
}

/// The document of an object marked for deletion at `rv`: its resource
/// version set and `deletionTimestamp` (to `now`) added when missing.
pub open spec fn deletion_marked_doc(doc: JsonView, rv: u64, now: Seq<char>) -> JsonView {
    setdefault_in(
        jset_in(doc, "metadata"@, "resourceVersion"@, JsonView::UInt(rv)),
        "metadata"@,
        "deletionTimestamp"@,
        JsonView::Str(now),
    )
}

/// Marks an object that still has finalizers for deletion, at resource
/// version `rv`, instead of removing it.
pub fn mark_for_deletion(existing: &StoredObject, rv: u64, now: &str) -> (r: StoredObject)
    ensures
        r@ == (StoredView {
            resource_version: rv,
            document: deletion_marked_doc(existing.document@, rv, now@),
            ..existing@
        }),
{
    let mut o = existing.duplicate();
    o.document.update_member("metadata", "resourceVersion", Json::UInt(rv));
    o.document.default_member("metadata", "deletionTimestamp", Json::string(now));
    o.resource_version = rv;
    o
}

/// The document of a newly registered worker, before its envelope is stamped.
pub open spec fn registration_doc(name: Seq<char>, capacity: JsonView, addresses: JsonView, version: JsonView) -> JsonView {
    JsonView::Object(seq![
        ("metadata"@, JsonView::Object(seq![("name"@, JsonView::Str(name))])),
        ("spec"@, JsonView::Object(seq![("unschedulable"@, JsonView::Bool(false))])),
        ("status"@, JsonView::Object(seq![
            ("capacity"@, capacity),
            ("allocatable"@, capacity),
            ("conditions"@, JsonView::Array(Seq::empty())),
            ("addresses"@, addresses),
            ("containerRuntimeVersion"@, version),
        ])),
    ])
}

/// A member's value, or a default.
pub open spec fn member_or(req: JsonView, key: Seq<char>, default: JsonView) -> JsonView {
    match json_get(req, key) {
        Some(v) => v,
        None => default,
    }
}

/// A copy of member `key` of `req`, or `default`.
fn member_or_else(req: &Json, key: &str, default: Json) -> (r: Json)
    ensures
        r@ == member_or(req@, key@, default@),
{
    match req.get(key) {
        Some(v) => v.deep_clone(),
        None => default,
    }
}

/// Reads a registration request: the worker's name (required) and its
/// document, with capacity (also its allocatable), addresses and runtime
/// version taken from the request or defaulted.
pub fn worker_registration(req: &Json) -> (r: Result<(String, Json), ApiError>)
    ensures
        match r {
            Ok((name, doc)) => {
                &&& str_of(json_get(req@, "name"@)) == Some(name@)
                &&& doc@ == registration_doc(
                    name@,
                    member_or(req@, "capacity"@, empty_object_view()),
                    member_or(req@, "addresses"@, JsonView::Array(Seq::empty())),
                    member_or(req@, "containerRuntimeVersion"@, JsonView::Str("unknown"@)),
                )
            },
            Err(e) => str_of(json_get(req@, "name"@)) is None && (e matches ApiError::BadRequest(m) && m@ == "name required"@),
        },
{
    let name = match req.get("name") {
        Some(v) => match v.as_str() {
            Some(s) => s.clone(),
            None => return Err(ApiError::BadRequest(string_from("name required"))),
        },
        None => return Err(ApiError::BadRequest(string_from("name required"))),
    };
    let empty_items: Vec<Json> = Vec::new();
    let no_items = Json::array(empty_items);
    assert(no_items@ == JsonView::Array(Seq::empty())) by {
        assert(crate::json::items_view(empty_items@) =~= Seq::<JsonView>::empty());
    }
    let capacity = member_or_else(req, "capacity", Json::empty_object());
    let allocatable = capacity.deep_clone();
    let addresses = member_or_else(req, "addresses", no_items);
    let version = member_or_else(req, "containerRuntimeVersion", Json::string("unknown"));
    let empty_conds: Vec<Json> = Vec::new();
    let conditions = Json::array(empty_conds);
    assert(conditions@ == JsonView::Array(Seq::empty())) by {
        assert(crate::json::items_view(empty_conds@) =~= Seq::<JsonView>::empty());
    }
    let mut status: Vec<(String, Json)> = Vec::new();
    let ghost cv = capacity@;
    let ghost av = addresses@;
    let ghost vv = version@;
    status.push((string_from("capacity"), capacity));
    status.push((string_from("allocatable"), allocatable));
    status.push((string_from("conditions"), conditions));
    status.push((string_from("addresses"), addresses));
    status.push((string_from("containerRuntimeVersion"), version));
    let status_doc = Json::object(status);
    let metadata = Json::single_member("name", Json::string(name.as_str()));
    let spec = Json::single_member("unschedulable", Json::Bool(false));
    let ghost mv = metadata@;
    let ghost sv = spec@;
    let ghost stv = status_doc@;
    let mut top: Vec<(String, Json)> = Vec::new();
    top.push((string_from("metadata"), metadata));
    top.push((string_from("spec"), spec));
    top.push((string_from("status"), status_doc));
    let doc = Json::object(top);
    proof {
        assert(members_view(status@) =~= seq![
            ("capacity"@, cv),
            ("allocatable"@, cv),
            ("conditions"@, JsonView::Array(Seq::empty())),
            ("addresses"@, av),
            ("containerRuntimeVersion"@, vv),
        ]);
        assert(members_view(top@) =~= seq![("metadata"@, mv), ("spec"@, sv), ("status"@, stv)]);
    }
    Ok((name, doc))
}

/// The message that refuses a second holder of the worker name `name`.
pub open spec fn name_held_text(name: Seq<char>) -> Seq<char> {
    "worker name "@ + name + " is already registered"@
}

/// Decides whether a registration may take a worker name, given the Worker
/// already stored under that name, if any. A name binds to one holder: a
/// registration is refused, as a conflict, exactly when a Worker is already
/// stored under the name, and that Worker and its credential stay as they are.
pub fn registration_admitted(existing: Option<&StoredObject>) -> (r: Result<(), ApiError>)
    ensures
        r is Err <==> existing is Some,
        r matches Err(e) ==> (existing matches Some(w) && e matches ApiError::Conflict(m)
            && m@ == name_held_text(w@.name)),
{
    match existing {
        Some(w) => {
            let mut m = string_from("worker name ");
            push_str(&mut m, w.name.as_str());
            push_str(&mut m, " is already registered");
            Err(ApiError::Conflict(m))
        },
        None => Ok(()),
    }
}

// ---------------------------------------------------------------------------
// List selectors
// ---------------------------------------------------------------------------

/// The label matches of a `labelSelector`'s pieces (`key=value` each), or the
/// message refusing the first piece without `=`.
pub open spec fn label_pairs(ps: Seq<Seq<char>>) -> Result<Seq<(Seq<char>, Seq<char>)>, Seq<char>>
    decreases ps.len(),
{
    if ps.len() == 0 {
        Ok(Seq::empty())
    } else {
        match label_pairs(ps.drop_last()) {
            Err(m) => Err(m),
            Ok(prev) => match split_once_spec(ps.last(), '=') {
                Some(kv) => Ok(prev.push(kv)),
                None => Err("bad labelSelector: "@ + ps.last()),
            },
        }
    }
}

/// The node selected by a `fieldSelector`'s pieces (only `spec.nodeName=..`
/// is supported; the last one wins), or the message refusing the first bad
/// piece.
pub open spec fn field_node(ps: Seq<Seq<char>>) -> Result<Option<Seq<char>>, Seq<char>>
    decreases ps.len(),
{
    if ps.len() == 0 {
        Ok(None)
    } else {
        match field_node(ps.drop_last()) {
            Err(m) => Err(m),
            Ok(prev) => match split_once_spec(ps.last(), '=') {
                Some((k, v)) => if k == "spec.nodeName"@ {
                    Ok(Some(v))
                } else {
                    Err("unsupported fieldSelector: "@ + k)
                },
                None => Err("bad fieldSelector: "@ + ps.last()),
            },
        }
    }
}

/// The selector a list request's query parameters ask for: label matches
/// from `labelSelector`, then the node from `fieldSelector`, each a
/// comma-separated list whose empty pieces are ignored; or the message
/// refusing it.
pub open spec fn selector_of(params: Seq<(Seq<char>, Seq<char>)>) -> Result<(Seq<(Seq<char>, Seq<char>)>, Option<Seq<char>>), Seq<char>> {
    let labels = match label_value(params, "labelSelector"@) {
        Some(ls) => label_pairs(non_empty(split_all(ls, ','))),
        None => Ok(Seq::empty()),
    };
    match labels {
        Err(m) => Err(m),
        Ok(l) => {
            let node = match label_value(params, "fieldSelector"@) {
                Some(fs) => field_node(non_empty(split_all(fs, ','))),
                None => Ok(None),
            };
            match node {
                Err(m) => Err(m),
                Ok(n) => Ok((l, n)),
            }
        },
    }
}

/// `prefix` followed by the characters of `v`.
fn message_with(prefix: &str, v: &Vec<char>) -> (r: String)
    ensures
        r@ == prefix@ + v@,
{
    let mut m = string_from(prefix);
    let t = string_of(v.as_slice());
    push_str(&mut m, t.as_str());
    m
}

fn label_matches(ls: &String) -> (r: Result<Vec<(String, String)>, ApiError>)
    ensures
        match r {
            Ok(v) => label_pairs(non_empty(split_all(ls@, ','))) == Ok::<Seq<(Seq<char>, Seq<char>)>, Seq<char>>(pairs_view(v@)),
            Err(e) => e matches ApiError::BadRequest(m) && label_pairs(non_empty(split_all(ls@, ','))) == Err::<Seq<(Seq<char>, Seq<char>)>, Seq<char>>(m@),
        },
{
    let v = chars_of(ls.as_str());
    let ps = split_non_empty(&v, ',');
    let ghost pv = rows(ps@);
    let mut out: Vec<(String, String)> = Vec::new();
    let mut i: usize = 0;
    assert(pv.take(0) =~= Seq::<Seq<char>>::empty());
    assert(pairs_view(out@) =~= Seq::<(Seq<char>, Seq<char>)>::empty());
    while i < ps.len()
        invariant
            pv == rows(ps@),
            pv == non_empty(split_all(ls@, ',')),
            0 <= i <= ps@.len(),
            label_pairs(pv.take(i as int)) == Ok::<Seq<(Seq<char>, Seq<char>)>, Seq<char>>(pairs_view(out@)),
        decreases ps@.len() - i,
    {
        let ghost t = pv.take(i as int + 1);
        assert(t.drop_last() =~= pv.take(i as int));
        assert(t.last() == ps@[i as int]@);
        match split_once(&ps[i], '=') {
            Some((k, val)) => {
                let ghost before = pairs_view(out@);
                out.push((string_of(k.as_slice()), string_of(val.as_slice())));
                assert(pairs_view(out@) =~= before.push((k@, val@)));
            },
            None => {
                let m = message_with("bad labelSelector: ", &ps[i]);
                proof {
                    lemma_label_pairs_err_stays(pv, i as int + 1, m@);
                    assert(pv.take(pv.len() as int) =~= pv);
                }
                return Err(ApiError::BadRequest(m));
            },
        }
        i += 1;
    }
    assert(pv.take(ps@.len() as int) =~= pv);
    Ok(out)
}

proof fn lemma_label_pairs_err_stays(ps: Seq<Seq<char>>, n: int, m: Seq<char>)
    requires
        0 <= n <= ps.len(),
        label_pairs(ps.take(n)) == Err::<Seq<(Seq<char>, Seq<char>)>, Seq<char>>(m),
    ensures
        label_pairs(ps) == Err::<Seq<(Seq<char>, Seq<char>)>, Seq<char>>(m),
    decreases ps.len() - n,
{
    if n == ps.len() {
        assert(ps.take(n) =~= ps);
    } else {
        let t = ps.take(n + 1);
        assert(t.drop_last() =~= ps.take(n));
        lemma_label_pairs_err_stays(ps, n + 1, m);
    }
}

proof fn lemma_field_node_err_stays(ps: Seq<Seq<char>>, n: int, m: Seq<char>)
    requires
        0 <= n <= ps.len(),
        field_node(ps.take(n)) == Err::<Option<Seq<char>>, Seq<char>>(m),
    ensures
        field_node(ps) == Err::<Option<Seq<char>>, Seq<char>>(m),
    decreases ps.len() - n,
{
    if n == ps.len() {
        assert(ps.take(n) =~= ps);
    } else {
        let t = ps.take(n + 1);
        assert(t.drop_last() =~= ps.take(n));
        lemma_field_node_err_stays(ps, n + 1, m);
    }
}

fn field_selection(fs: &String) -> (r: Result<Option<String>, ApiError>)
    ensures
        match r {
            Ok(n) => field_node(non_empty(split_all(fs@, ','))) == Ok::<Option<Seq<char>>, Seq<char>>(opt_str_view(n)),
            Err(e) => e matches ApiError::BadRequest(m) && field_node(non_empty(split_all(fs@, ','))) == Err::<Option<Seq<char>>, Seq<char>>(m@),
        },
{
    let v = chars_of(fs.as_str());
    let ps = split_non_empty(&v, ',');
    let ghost pv = rows(ps@);
    let mut node: Option<String> = None;
    let mut i: usize = 0;
    assert(pv.take(0) =~= Seq::<Seq<char>>::empty());
    proof {
        reveal_strlit("spec.nodeName");
    }
    while i < ps.len()
        invariant
            pv == rows(ps@),
            pv == non_empty(split_all(fs@, ',')),
            0 <= i <= ps@.len(),
            field_node(pv.take(i as int)) == Ok::<Option<Seq<char>>, Seq<char>>(opt_str_view(node)),
        decreases ps@.len() - i,
    {
        let ghost t = pv.take(i as int + 1);
        assert(t.drop_last() =~= pv.take(i as int));
        assert(t.last() == ps@[i as int]@);
        match split_once(&ps[i], '=') {
            Some((k, val)) => {
                let ks = string_of(k.as_slice());
                if str_eq(ks.as_str(), "spec.nodeName") {
                    node = Some(string_of(val.as_slice()));
                } else {
                    let m = message_with("unsupported fieldSelector: ", &k);
                    proof {
                        lemma_field_node_err_stays(pv, i as int + 1, m@);
                    }
                    return Err(ApiError::BadRequest(m));
                }
            },
            None => {
                let m = message_with("bad fieldSelector: ", &ps[i]);
                proof {
                    lemma_field_node_err_stays(pv, i as int + 1, m@);
                }
                return Err(ApiError::BadRequest(m));
            },
        }
        i += 1;
    }
    assert(pv.take(ps@.len() as int) =~= pv);
    Ok(node)
}

/// Reads a list request's selector from its query parameters (the first
/// value of each name counts): `labelSelector=k=v,..` and
/// `fieldSelector=spec.nodeName=..`; a malformed or unsupported piece is a
/// bad request.
pub fn parse_selector(params: &Vec<(String, String)>) -> (r: Result<crate::store::Selector, ApiError>)
    ensures
        match r {
            Ok(sel) => selector_of(pairs_view(params@)) == Ok::<(Seq<(Seq<char>, Seq<char>)>, Option<Seq<char>>), Seq<char>>(
                (pairs_view(sel.labels@), opt_str_view(sel.node_name)),
            ),
            Err(e) => e matches ApiError::BadRequest(m) && selector_of(pairs_view(params@)) == Err::<(Seq<(Seq<char>, Seq<char>)>, Option<Seq<char>>), Seq<char>>(m@),
        },
{
    let labels = match crate::store::find_label(params, "labelSelector") {
        Some(ls) => match label_matches(ls) {
            Ok(v) => v,
            Err(e) => return Err(e),
        },
        None => {
            let v: Vec<(String, String)> = Vec::new();
            assert(pairs_view(v@) =~= Seq::<(Seq<char>, Seq<char>)>::empty());
            v
        },
    };
    let node_name = match crate::store::find_label(params, "fieldSelector") {
        Some(fs) => match field_selection(fs) {
            Ok(n) => n,
            Err(e) => return Err(e),
        },
        None => None,
    };
    Ok(crate::store::Selector { labels, node_name })
}

/// A delete that finds finalizers marks the object instead of removing it:
/// the stored document is marked for deletion, keeps its finalizers, and a
/// deletion time already present is kept.
pub proof fn law_delete_with_finalizers_marks(doc: JsonView, rv: u64, now: Seq<char>)
    requires
        json_get(doc, "metadata"@) matches Some(JsonView::Object(_)),
    ensures
        marked_for_deletion(deletion_marked_doc(doc, rv, now)) <== (
            get2(doc, "metadata"@, "deletionTimestamp"@) is None || marked_for_deletion(doc)),
        has_finalizers_spec(deletion_marked_doc(doc, rv, now)) == has_finalizers_spec(doc),
        get2(doc, "metadata"@, "deletionTimestamp"@) matches Some(dt) ==> get2(deletion_marked_doc(doc, rv, now), "metadata"@, "deletionTimestamp"@) == Some(dt),
{
    reveal_strlit("metadata");
    reveal_strlit("resourceVersion");
    reveal_strlit("deletionTimestamp");
    reveal_strlit("finalizers");
    assert("resourceVersion"@[0] != "deletionTimestamp"@[0]);
    assert("resourceVersion"@[0] != "finalizers"@[0]);
    assert("deletionTimestamp"@[0] != "finalizers"@[0]);
    let m = json_get(doc, "metadata"@).unwrap();
    let m1 = jset(m, "resourceVersion"@, JsonView::UInt(rv));
    let d1 = jset(doc, "metadata"@, m1);
    crate::json::lemma_jset_get(doc, "metadata"@, m1, "metadata"@);
    crate::json::lemma_jset_get(m, "resourceVersion"@, JsonView::UInt(rv), "deletionTimestamp"@);
    crate::json::lemma_jset_get(m, "resourceVersion"@, JsonView::UInt(rv), "finalizers"@);
    assert(d1 == jset_in(doc, "metadata"@, "resourceVersion"@, JsonView::UInt(rv)));
    assert(m1 is Object);
    let m2 = setdefault(m1, "deletionTimestamp"@, JsonView::Str(now));
    crate::json::lemma_jset_get(d1, "metadata"@, m2, "metadata"@);
    if json_get(m1, "deletionTimestamp"@) is None {
        crate::json::lemma_jset_get(m1, "deletionTimestamp"@, JsonView::Str(now), "deletionTimestamp"@);
        crate::json::lemma_jset_get(m1, "deletionTimestamp"@, JsonView::Str(now), "finalizers"@);
    }
    assert(deletion_marked_doc(doc, rv, now) == jset(d1, "metadata"@, m2));
}

/// What a list request's parameters ask of a watch: `None` unless `watch`
/// is `true`; else the resource version to replay from (`resourceVersion`,
/// 0 when absent or not a number) and the time limit in seconds
/// (`watchTimeoutSeconds`, none when absent or not a number).
pub open spec fn watch_of(params: Seq<(Seq<char>, Seq<char>)>) -> Option<(u64, Option<u64>)> {
    if label_value(params, "watch"@) == Some("true"@) {
        let since = match label_value(params, "resourceVersion"@) {
            Some(v) => match crate::text::parse_u64_spec(v) {
                Some(n) => n,
                None => 0,
            },
            None => 0,
        };
        let limit = match label_value(params, "watchTimeoutSeconds"@) {
            Some(v) => crate::text::parse_u64_spec(v),
            None => None,
        };
        Some((since, limit))
    } else {
        None
    }
}

/// A parameter read as a `u64`, when present and a number.
fn number_param(params: &Vec<(String, String)>, key: &str) -> (r: Option<u64>)
    ensures
        r == match label_value(pairs_view(params@), key@) {
            Some(v) => crate::text::parse_u64_spec(v),
            None => None,
        },
{
    match crate::store::find_label(params, key) {
        Some(v) => {
            let cv = chars_of(v.as_str());
            crate::text::parse_u64(&cv)
        },
        None => None,
    }
}

/// Reads whether a list request is a watch, and from where and for how long.
pub fn watch_request(params: &Vec<(String, String)>) -> (r: Option<(u64, Option<u64>)>)
    ensures
        r == watch_of(pairs_view(params@)),
{
    let watching = match crate::store::find_label(params, "watch") {
        Some(v) => str_eq(v.as_str(), "true"),
        None => false,
    };
    if !watching {
        return None;
    }
    let since = match number_param(params, "resourceVersion") {
        Some(n) => n,
        None => 0,
    };
    Some((since, number_param(params, "watchTimeoutSeconds")))
}

/// The lifetime a token request asks for: its `ttlSeconds` when that is an
/// integer, else one day.
pub fn requested_ttl(body: Option<&Json>) -> (r: i64)
    ensures
        r == match body {
            Some(b) => match crate::json::i64_of(json_get(b@, "ttlSeconds"@)) {
                Some(t) => t,
                None => 86400,
            },
            None => 86400,
        },
{
    match body {
        Some(b) => match b.get("ttlSeconds") {
            Some(v) => match v.as_i64() {
                Some(t) => t,
                None => 86400,
            },
            None => 86400,
        },
        None => 86400,
    }
}

/// How a caller's identity is reported: `"admin"`, or `{"worker": name}`.
pub open spec fn identity_view(who: Identity) -> JsonView {
    match who {
        Identity::Admin => JsonView::Str("admin"@),
        Identity::Worker(w) => JsonView::Object(seq![("worker"@, JsonView::Str(w@))]),
    }
}

/// Reports a caller's identity: `{"identity": ..}`.
pub fn identity_document(who: &Identity) -> (r: Json)
    ensures
        r@ == JsonView::Object(seq![("identity"@, identity_view(*who))]),
{
    let inner = match who {
        Identity::Admin => Json::string("admin"),
        Identity::Worker(w) => Json::single_member("worker", Json::string(w.as_str())),
    };
    Json::single_member("identity", inner)
}

} // verus!
