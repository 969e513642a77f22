//! The command-line client's REST helpers: resource words and URLs.

use vstd::prelude::*;
use crate::text::{chars_of, push_str, str_eq, string_of, take_chars};

verus! {

/// The REST path segment for a resource word, singular or plural.
pub open spec fn plural_of(kind: Seq<char>) -> Option<Seq<char>> {
    if kind == "container"@ || kind == "containers"@ {
        Some("containers"@)
    } else if kind == "worker"@ || kind == "workers"@ {
        Some("workers"@)
    } else if kind == "lease"@ || kind == "leases"@ {
        Some("leases"@)
    } else {
        None
    }
}

/// Maps a singular or plural resource word to its REST path segment, and
/// an unknown word to `None`.
pub fn plural_for(kind: &str) -> (r: Option<&'static str>)
    ensures
        match r {
            Some(p) => plural_of(kind@) == Some(p@),
            None => plural_of(kind@) is None,
        },
{
    if str_eq(kind, "container") || str_eq(kind, "containers") {
        Some("containers")
    } else if str_eq(kind, "worker") || str_eq(kind, "workers") {
        Some("workers")
    } else if str_eq(kind, "lease") || str_eq(kind, "leases") {
        Some("leases")
    } else {
        None
    }
}

/// `s` without its trailing slashes.
pub open spec fn without_trailing_slashes(s: Seq<char>) -> Seq<char>
    decreases s.len(),
{
    if s.len() > 0 && s.last() == '/' {
        without_trailing_slashes(s.drop_last())
    } else {
        s
    }
}

proof fn lemma_trailing_slashes_at(s: Seq<char>, j: int)
    requires
        0 <= j <= s.len(),
        forall|k: int| j <= k < s.len() ==> #[trigger] s[k] == '/',
        j == 0 || s[j - 1] != '/',
    ensures
        without_trailing_slashes(s) == s.take(j),
    decreases s.len() - j,
{
    if j == s.len() {
        assert(s.take(j) =~= s);
    } else {
        assert forall|k: int| j <= k < s.len() - 1 implies #[trigger] s.drop_last()[k] == '/' by {
            assert(s.drop_last()[k] == s[k]);
        }
        if j > 0 {
            assert(s.drop_last()[j - 1] == s[j - 1]);
        }
        lemma_trailing_slashes_at(s.drop_last(), j);
        assert(s.drop_last().take(j) =~= s.take(j));
    }
}

/// `base` with its trailing slashes removed.
fn trim_base(base: &str) -> (r: String)
    ensures
        r@ == without_trailing_slashes(base@),
{
    let v = chars_of(base);
    let mut j: usize = v.len();
    while j > 0 && v[j - 1] == '/'
        invariant
            v@ == base@,
            0 <= j <= v@.len(),
            forall|k: int| j <= k < v@.len() ==> #[trigger] v@[k] == '/',
        decreases j,
    {
        j -= 1;
    }
    proof {
        lemma_trailing_slashes_at(v@, j as int);
    }
    let t = take_chars(&v, j);
    string_of(t.as_slice())
}

/// The URL of a collection, with its label selector when one is given.
pub open spec fn collection_url_text(base: Seq<char>, plural: Seq<char>, selector: Option<Seq<char>>) -> Seq<char> {
    let head = without_trailing_slashes(base) + "/api/v1/"@ + plural;
    match selector {
        Some(ls) => head + "?labelSelector="@ + ls,
        None => head,
    }
}

/// Builds a collection URL (`{base}/api/v1/{plural}`), with
/// `?labelSelector={ls}` when a selector is given; trailing slashes of
/// `base` are dropped.
pub fn collection_url(base: &str, plural: &str, label_selector: Option<&str>) -> (r: String)
    ensures
        r@ == collection_url_text(
            base@,
            plural@,
            match label_selector {
                Some(ls) => Some(ls@),
                None => None,
            },
        ),
{
    let mut out = trim_base(base);
    push_str(&mut out, "/api/v1/");
    push_str(&mut out, plural);
    match label_selector {
        Some(ls) => {
            push_str(&mut out, "?labelSelector=");
            push_str(&mut out, ls);
        },
        None => {},
    }
    out
}

/// The URL of one object.
pub open spec fn object_url_text(base: Seq<char>, plural: Seq<char>, name: Seq<char>) -> Seq<char> {
    without_trailing_slashes(base) + "/api/v1/"@ + plural + "/"@ + name
}

/// Builds a single-object URL (`{base}/api/v1/{plural}/{name}`); trailing
/// slashes of `base` are dropped.
pub fn object_url(base: &str, plural: &str, name: &str) -> (r: String)
    ensures
        r@ == object_url_text(base@, plural@, name@),
{
    let mut out = trim_base(base);
    push_str(&mut out, "/api/v1/");
    push_str(&mut out, plural);
    push_str(&mut out, "/");
    push_str(&mut out, name);
    out
}

} // verus!
