use velos::auth::Identity;
use velos::json::Json;
use velos::server::{
    authorize_admin, authorize_api, bearer, event_type_name, extract_labels, extract_name, extract_node_name,
    has_finalizers, is_marked_for_deletion, kind_for, mark_for_deletion, named_path, parse_selector, plan_create,
    plan_replace, apply_status, stamp_meta, watch_frame, worker_registration, ApiError, EventType, ReplacePlan,
    identity_document, registration_admitted, requested_ttl, watch_request,
};
use velos::json::document_text;
use velos::store::{decode_event, decode_row, labels_text, version_conflict, StoreError, StoredObject};

fn s(x: &str) -> Json {
    Json::Str(x.to_string())
}

fn obj(members: Vec<(&str, Json)>) -> Json {
    Json::Object(members.into_iter().map(|(k, v)| (k.to_string(), v)).collect())
}

fn at<'a>(doc: &'a Json, path: &[&str]) -> Option<&'a Json> {
    doc.get_path(path)
}

fn text<'a>(doc: &'a Json, path: &[&str]) -> Option<&'a str> {
    at(doc, path).and_then(|v| v.as_str()).map(|v| v.as_str())
}

#[test]
fn kinds_and_event_names() {
    assert_eq!(kind_for("containers"), Some("Container"));
    assert_eq!(kind_for("workers"), Some("Worker"));
    assert_eq!(kind_for("leases"), Some("Lease"));
    assert_eq!(kind_for("widgets"), None);
    assert_eq!(event_type_name(EventType::Added), "Added");
    assert_eq!(event_type_name(EventType::Modified), "Modified");
    assert_eq!(event_type_name(EventType::Deleted), "Deleted");
    let f = watch_frame(EventType::Added, &obj(vec![("metadata", obj(vec![("name", s("c1"))]))]));
    assert_eq!(text(&f, &["type"]), Some("Added"));
    assert_eq!(text(&f, &["object", "metadata", "name"]), Some("c1"));
}

#[test]
fn errors_map_to_statuses() {
    assert_eq!(ApiError::NotFound.status(), 404);
    assert_eq!(ApiError::BadRequest("x".into()).status(), 400);
    assert_eq!(ApiError::Unauthorized.status(), 401);
    assert_eq!(ApiError::Forbidden.status(), 403);
    assert_eq!(ApiError::Conflict("c".into()).status(), 409);
    assert_eq!(ApiError::Internal("i".into()).status(), 500);
    assert_eq!(text(&ApiError::NotFound.body(), &["error"]), Some("not found"));
    assert_eq!(text(&ApiError::BadRequest("bad".into()).body(), &["error"]), Some("bad"));
    assert_eq!(ApiError::from_store(&StoreError::Lock), ApiError::Internal("store lock poisoned".into()));
    assert_eq!(
        ApiError::from_store(&StoreError::Sqlite("disk".into())),
        ApiError::Internal("sqlite error: disk".into())
    );
}

#[test]
fn envelope_fields_are_read() {
    let doc = obj(vec![
        ("metadata", obj(vec![("name", s("c1")), ("labels", obj(vec![("team", s("a")), ("n", Json::UInt(1)), ("env", s("prod"))]))])),
        ("spec", obj(vec![("nodeName", s("w1"))])),
    ]);
    assert_eq!(extract_name(&doc), Some("c1".to_string()));
    assert_eq!(extract_node_name(&doc), Some("w1".to_string()));
    assert_eq!(extract_labels(&doc), vec![("team".to_string(), "a".to_string()), ("env".to_string(), "prod".to_string())]);
    assert_eq!(extract_name(&Json::Null), None);
    assert!(extract_labels(&obj(vec![])).is_empty());
}

#[test]
fn stamping_sets_server_fields_and_defaults_the_rest() {
    let mut doc = obj(vec![("metadata", obj(vec![("name", s("c1")), ("labels", obj(vec![("k", s("v"))]))]))]);
    stamp_meta(&mut doc, "uid-1", 7, "2026-06-27T00:00:00+00:00");
    assert_eq!(text(&doc, &["metadata", "uid"]), Some("uid-1"));
    assert_eq!(at(&doc, &["metadata", "resourceVersion"]).unwrap().as_u64(), Some(7));
    assert_eq!(text(&doc, &["metadata", "creationTimestamp"]), Some("2026-06-27T00:00:00+00:00"));
    assert_eq!(text(&doc, &["metadata", "labels", "k"]), Some("v"));
    assert!(at(&doc, &["metadata", "annotations"]).unwrap().is_object());
    assert_eq!(at(&doc, &["metadata", "finalizers"]).unwrap().as_array().unwrap().len(), 0);

    let mut bare = obj(vec![("metadata", s("oops"))]);
    stamp_meta(&mut bare, "u", 1, "now");
    assert_eq!(text(&bare, &["metadata", "uid"]), Some("u"));
    let mut null = Json::Null;
    stamp_meta(&mut null, "u", 2, "now");
    assert_eq!(at(&null, &["metadata", "resourceVersion"]).unwrap().as_u64(), Some(2));
}

#[test]
fn bearer_tokens_and_paths() {
    assert_eq!(bearer(Some("Bearer abc")), Some("abc".to_string()));
    assert_eq!(bearer(Some("Bearer ")), Some("".to_string()));
    assert_eq!(bearer(Some("bearer abc")), None);
    assert_eq!(bearer(Some("Basic abc")), None);
    assert_eq!(bearer(None), None);
    assert_eq!(named_path("/api/v1/workers/w1"), Some(("workers".to_string(), "w1".to_string())));
    assert_eq!(named_path("/api/v1/containers/c1/status"), Some(("containers".to_string(), "c1".to_string())));
    assert_eq!(named_path("/api/v1/workers"), None);
    assert_eq!(named_path("/api/v1/workers/"), None);
    assert_eq!(named_path("/auth/v1/me"), None);
}

#[test]
fn workers_reach_only_their_own_objects() {
    let w1 = Identity::Worker("w1".to_string());
    assert_eq!(authorize_api(true, Some(&w1), "/api/v1/workers/w1"), Ok(()));
    assert_eq!(authorize_api(true, Some(&w1), "/api/v1/leases/w2"), Err(ApiError::Forbidden));
    assert_eq!(authorize_api(true, Some(&w1), "/api/v1/workers/w2"), Err(ApiError::Forbidden));
    assert_eq!(authorize_api(true, Some(&w1), "/api/v1/containers/c9"), Ok(()));
    assert_eq!(authorize_api(true, Some(&w1), "/api/v1/workers"), Ok(()));
    assert_eq!(authorize_api(true, Some(&Identity::Admin), "/api/v1/workers/w2"), Ok(()));
    assert_eq!(authorize_api(true, None, "/api/v1/workers/w1"), Err(ApiError::Unauthorized));
    assert_eq!(authorize_api(false, Some(&Identity::Admin), "/api/v1/workers/w1"), Err(ApiError::Unauthorized));
    assert_eq!(authorize_admin(true, Some(&Identity::Admin)), Ok(()));
    assert_eq!(authorize_admin(true, Some(&w1)), Err(ApiError::Forbidden));
    assert_eq!(authorize_admin(true, None), Err(ApiError::Unauthorized));
    assert_eq!(authorize_admin(false, Some(&Identity::Admin)), Err(ApiError::Unauthorized));
}

fn params(ps: &[(&str, &str)]) -> Vec<(String, String)> {
    ps.iter().map(|(k, v)| (k.to_string(), v.to_string())).collect()
}

#[test]
fn selectors_are_parsed_or_refused() {
    let sel = parse_selector(&params(&[("labelSelector", "team=a,,env=prod"), ("fieldSelector", "spec.nodeName=w1")])).unwrap();
    assert_eq!(sel.labels, vec![("team".to_string(), "a".to_string()), ("env".to_string(), "prod".to_string())]);
    assert_eq!(sel.node_name, Some("w1".to_string()));
    let none = parse_selector(&params(&[])).unwrap();
    assert!(none.labels.is_empty() && none.node_name.is_none());
    assert_eq!(
        parse_selector(&params(&[("labelSelector", "team")])).unwrap_err(),
        ApiError::BadRequest("bad labelSelector: team".to_string())
    );
    assert_eq!(
        parse_selector(&params(&[("fieldSelector", "status.phase=Running")])).unwrap_err(),
        ApiError::BadRequest("unsupported fieldSelector: status.phase".to_string())
    );
    assert_eq!(
        parse_selector(&params(&[("fieldSelector", "oops")])).unwrap_err(),
        ApiError::BadRequest("bad fieldSelector: oops".to_string())
    );
    let last = parse_selector(&params(&[("fieldSelector", "spec.nodeName=a,spec.nodeName=b")])).unwrap();
    assert_eq!(last.node_name, Some("b".to_string()));
    let sel = parse_selector(&params(&[("labelSelector", "k=v=w")])).unwrap();
    assert!(sel.matches(&None, &vec![("k".to_string(), "v=w".to_string())]));
    assert!(!sel.matches(&None, &vec![("k".to_string(), "v".to_string())]));
}

fn existing(doc: Json) -> StoredObject {
    StoredObject {
        kind: "Container".to_string(),
        name: "c1".to_string(),
        uid: "uid-c1".to_string(),
        resource_version: 3,
        node_name: None,
        labels: vec![],
        document: doc,
    }
}

#[test]
fn create_requires_an_object_with_a_name() {
    assert_eq!(
        plan_create("Container", &Json::Array(vec![]), "u", 1, "now").unwrap_err(),
        ApiError::BadRequest("body must be a JSON object".to_string())
    );
    assert_eq!(
        plan_create("Container", &obj(vec![("spec", obj(vec![]))]), "u", 1, "now").unwrap_err(),
        ApiError::BadRequest("metadata.name required".to_string())
    );
    let body = obj(vec![("metadata", obj(vec![("name", s("c1"))])), ("spec", obj(vec![("nodeName", s("w1"))]))]);
    let o = plan_create("Container", &body, "u-1", 5, "now").unwrap();
    assert_eq!((o.kind.as_str(), o.name.as_str(), o.uid.as_str(), o.resource_version), ("Container", "c1", "u-1", 5));
    assert_eq!(o.node_name.as_deref(), Some("w1"));
    assert_eq!(text(&o.document, &["metadata", "uid"]), Some("u-1"));
}

#[test]
fn replace_keeps_server_fields_and_honors_preconditions() {
    let old = existing(obj(vec![(
        "metadata",
        obj(vec![("name", s("c1")), ("creationTimestamp", s("t0")), ("finalizers", Json::Array(vec![s("veloslet")]))]),
    )]));
    let body = obj(vec![
        ("metadata", obj(vec![("name", s("other")), ("resourceVersion", Json::UInt(3)), ("creationTimestamp", s("forged"))])),
        ("spec", obj(vec![("image", s("img"))])),
    ]);
    match plan_replace("Container", "c1", &body, &old, 4, "t1") {
        ReplacePlan::Put { object, expected } => {
            assert_eq!(expected, Some(3));
            assert_eq!(object.resource_version, 4);
            assert_eq!(object.uid, "uid-c1");
            assert_eq!(text(&object.document, &["metadata", "name"]), Some("c1"));
            assert_eq!(text(&object.document, &["metadata", "creationTimestamp"]), Some("t0"));
            assert_eq!(text(&object.document, &["metadata", "uid"]), Some("uid-c1"));
        },
        ReplacePlan::Delete(_) => panic!("not marked"),
    }
}

#[test]
fn finalizer_protocol_marks_then_deletes() {
    let doc = obj(vec![("metadata", obj(vec![("name", s("c1")), ("finalizers", Json::Array(vec![s("veloslet")]))]))]);
    assert!(has_finalizers(&doc));
    let old = existing(doc);
    let marked = mark_for_deletion(&old, 8, "t-del");
    assert!(is_marked_for_deletion(&marked.document));
    assert_eq!(marked.resource_version, 8);
    assert!(has_finalizers(&marked.document));

    let cleared = obj(vec![("metadata", obj(vec![("name", s("c1")), ("finalizers", Json::Array(vec![]))]))]);
    match plan_replace("Container", "c1", &cleared, &marked, 9, "t2") {
        ReplacePlan::Delete(d) => {
            assert_eq!(text(&d, &["metadata", "deletionTimestamp"]), Some("t-del"));
        },
        ReplacePlan::Put { .. } => panic!("should hard-delete"),
    }
    let kept = obj(vec![("metadata", obj(vec![("name", s("c1")), ("finalizers", Json::Array(vec![s("veloslet")]))]))]);
    assert!(matches!(plan_replace("Container", "c1", &kept, &marked, 9, "t2"), ReplacePlan::Put { .. }));
    let dropped = obj(vec![("metadata", obj(vec![("name", s("c1"))]))]);
    assert!(matches!(plan_replace("Container", "c1", &dropped, &marked, 9, "t2"), ReplacePlan::Delete(_)));
}

#[test]
fn status_updates_replace_status_only() {
    let old = existing(obj(vec![
        ("metadata", obj(vec![("name", s("c1")), ("resourceVersion", Json::UInt(3))])),
        ("status", obj(vec![("phase", s("Pending"))])),
    ]));
    let wrapped = apply_status(&old, &obj(vec![("status", obj(vec![("phase", s("Running"))]))]), 6);
    assert_eq!(text(&wrapped.document, &["status", "phase"]), Some("Running"));
    assert_eq!(at(&wrapped.document, &["metadata", "resourceVersion"]).unwrap().as_u64(), Some(6));
    assert_eq!(wrapped.resource_version, 6);
    let bare = apply_status(&old, &obj(vec![("phase", s("Failed"))]), 7);
    assert_eq!(text(&bare.document, &["status", "phase"]), Some("Failed"));
}

#[test]
fn registration_builds_the_worker_document() {
    assert_eq!(worker_registration(&obj(vec![])).unwrap_err(), ApiError::BadRequest("name required".to_string()));
    let (name, doc) = worker_registration(&obj(vec![
        ("name", s("w1")),
        ("capacity", obj(vec![("cpu", Json::UInt(4))])),
    ]))
    .unwrap();
    assert_eq!(name, "w1");
    assert_eq!(text(&doc, &["metadata", "name"]), Some("w1"));
    assert_eq!(at(&doc, &["spec", "unschedulable"]).unwrap().as_bool(), Some(false));
    assert_eq!(at(&doc, &["status", "allocatable", "cpu"]).unwrap().as_u64(), Some(4));
    assert_eq!(text(&doc, &["status", "containerRuntimeVersion"]), Some("unknown"));
    assert_eq!(at(&doc, &["status", "addresses"]).unwrap().as_array().unwrap().len(), 0);
}

#[test]
fn watch_parameters() {
    assert_eq!(watch_request(&params(&[("watch", "false"), ("resourceVersion", "4")])), None);
    assert_eq!(watch_request(&params(&[("watch", "true")])), Some((0, None)));
    assert_eq!(
        watch_request(&params(&[("watch", "true"), ("resourceVersion", "12"), ("watchTimeoutSeconds", "3")])),
        Some((12, Some(3)))
    );
    assert_eq!(watch_request(&params(&[("watch", "true"), ("resourceVersion", "x"), ("watchTimeoutSeconds", "-1")])), Some((0, None)));
}

#[test]
fn token_lifetimes_and_identities() {
    assert_eq!(requested_ttl(None), 86400);
    assert_eq!(requested_ttl(Some(&obj(vec![("ttlSeconds", Json::UInt(60))]))), 60);
    assert_eq!(requested_ttl(Some(&obj(vec![("ttlSeconds", Json::Int(-1))]))), -1);
    assert_eq!(requested_ttl(Some(&obj(vec![("ttlSeconds", s("60"))]))), 86400);
    assert_eq!(text(&identity_document(&Identity::Admin), &["identity"]), Some("admin"));
    assert_eq!(text(&identity_document(&Identity::Worker("w1".into())), &["identity", "worker"]), Some("w1"));
}

fn worker_with_ready(name: &str, ready: Option<bool>) -> StoredObject {
    let conditions = match ready {
        Some(r) => vec![obj(vec![("conditionType", s("Ready")), ("status", Json::Bool(r))])],
        None => vec![],
    };
    StoredObject {
        kind: "Worker".to_string(),
        name: name.to_string(),
        uid: "u1".to_string(),
        resource_version: 3,
        node_name: None,
        labels: Vec::new(),
        document: obj(vec![
            ("metadata", obj(vec![("name", s(name))])),
            ("status", obj(vec![("conditions", Json::Array(conditions))])),
        ]),
    }
}

#[test]
fn a_second_holder_of_a_worker_name_is_refused() {
    assert_eq!(registration_admitted(None), Ok(()));
    for ready in [None, Some(false), Some(true)] {
        let refused = registration_admitted(Some(&worker_with_ready("w1", ready)));
        assert_eq!(refused, Err(ApiError::Conflict("worker name w1 is already registered".to_string())));
        assert_eq!(refused.unwrap_err().status(), 409);
    }
}

#[test]
fn compare_and_swap_conflicts_only_on_a_different_stored_version() {
    assert_eq!(version_conflict(None, 4), None);
    assert_eq!(version_conflict(Some(4), 4), None);
    assert_eq!(
        version_conflict(Some(7), 4),
        Some("resource version conflict: expected 4, found 7".to_string())
    );
}

#[test]
fn stored_rows_read_back_their_labels_and_document() {
    let doc = obj(vec![("metadata", obj(vec![("name", s("c1"))])), ("spec", obj(vec![("image", s("img"))]))]);
    let text = document_text(&doc);
    assert_eq!(text, "{\"metadata\":{\"name\":\"c1\"},\"spec\":{\"image\":\"img\"}}");
    let labels = vec![("tier".to_string(), "web".to_string()), ("app".to_string(), "shop".to_string())];
    let ltext = labels_text(&labels);
    assert_eq!(ltext, "{\"app\":\"shop\",\"tier\":\"web\"}");
    let o = decode_row("Container", "c1".to_string(), "u1".to_string(), 7, Some("w1".to_string()), &ltext, &text).unwrap();
    assert_eq!((o.kind.as_str(), o.name.as_str(), o.uid.as_str(), o.resource_version), ("Container", "c1", "u1", 7));
    assert_eq!(o.node_name.as_deref(), Some("w1"));
    assert_eq!(o.labels, vec![("app".to_string(), "shop".to_string()), ("tier".to_string(), "web".to_string())]);
    assert_eq!(document_text(&o.document), text);
}

#[test]
fn stored_rows_that_do_not_read_are_serde_errors() {
    let bad_label = decode_row("Container", "c1".to_string(), "u".to_string(), 1, None, "{\"app\":1}", "{}");
    assert!(matches!(bad_label, Err(StoreError::Serde(_))));
    let not_object = decode_row("Container", "c1".to_string(), "u".to_string(), 1, None, "[]", "{}");
    assert!(matches!(not_object, Err(StoreError::Serde(_))));
    let bad_doc = decode_row("Container", "c1".to_string(), "u".to_string(), 1, None, "{}", "not json");
    assert!(matches!(bad_doc, Err(StoreError::Serde(_))));
    assert!(decode_row("Container", "c1".to_string(), "u".to_string(), 1, None, "{}", "null").is_ok());
}

#[test]
fn stored_events_read_back_their_type() {
    let (t, d) = decode_event("Deleted", "{\"a\":1}").unwrap();
    assert_eq!(t, EventType::Deleted);
    assert_eq!(d.get("a").and_then(|v| v.as_u64()), Some(1));
    assert_eq!(decode_event("Added", "{}").unwrap().0, EventType::Added);
    assert_eq!(decode_event("Modified", "{}").unwrap().0, EventType::Modified);
    assert!(matches!(decode_event("Renamed", "{}"), Err(StoreError::Serde(_))));
    assert!(matches!(decode_event("Added", "{"), Err(StoreError::Serde(_))));
}
