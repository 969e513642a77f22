use velos::ctl::{collection_url, object_url, plural_for};

#[test]
fn plural_normalizes_singular_and_plural() {
    assert_eq!(plural_for("container"), Some("containers"));
    assert_eq!(plural_for("workers"), Some("workers"));
    assert_eq!(plural_for("lease"), Some("leases"));
    assert_eq!(plural_for("widget"), None);
}

#[test]
fn urls_trim_trailing_slash_and_add_selector() {
    assert_eq!(collection_url("http://h:8080/", "containers", None), "http://h:8080/api/v1/containers");
    assert_eq!(
        collection_url("http://h:8080", "containers", Some("team=a")),
        "http://h:8080/api/v1/containers?labelSelector=team=a"
    );
    assert_eq!(object_url("http://h:8080/", "workers", "w1"), "http://h:8080/api/v1/workers/w1");
}

#[test]
fn every_trailing_slash_is_dropped() {
    assert_eq!(object_url("http://h///", "leases", "n"), "http://h/api/v1/leases/n");
    assert_eq!(collection_url("", "workers", None), "/api/v1/workers");
    assert_eq!(collection_url("/", "workers", Some("")), "/api/v1/workers?labelSelector=");
}

#[test]
fn plural_words_are_exact() {
    assert_eq!(plural_for("containers"), Some("containers"));
    assert_eq!(plural_for("worker"), Some("workers"));
    assert_eq!(plural_for("leases"), Some("leases"));
    assert_eq!(plural_for("Container"), None);
    assert_eq!(plural_for(""), None);
}
