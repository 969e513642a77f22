//! Worker credentials and bootstrap tokens: how a presented credential is
//! split, what is stored for it (only a SHA-256 digest, never the secret),
//! and when a presented secret is accepted. Unknown, expired and revoked
//! tokens are refused.

use vstd::prelude::*;
use sha2::Digest;
use crate::clock::{four_digit_year, epoch_nanos, format_rfc3339, instant_before, parse_rfc3339, rfc3339_instant, rfc3339_text, valid_time, UtcTime};
use crate::json::{json_get, str_of, Json, JsonView};
use crate::store::StoreError;
use crate::text::{chars_of, push_char, push_str, str_eq, string_of, take_chars};

verus! {

/// The SHA-256 digest of a text's UTF-8 bytes.
pub uninterp spec fn sha256_of_text(text: Seq<char>) -> Seq<u8>;

/// Hashes the UTF-8 bytes of `text` with `sha2::Sha256::digest`. The
/// contract names the digest (a function of the text alone) and states its
/// length, 32 bytes.
#[verifier::external_body]
fn sha256_text(text: &str) -> (r: Vec<u8>)
    ensures
        r@ == sha256_of_text(text@),
        r@.len() == 32,
{
    sha2::Sha256::digest(text.as_bytes()).to_vec()
}

/// The lowercase hexadecimal digit for `n < 16`.
pub open spec fn hex_digit(n: u8) -> char {
    if n < 10 {
        (n + 48) as char
    } else {
        (n + 87) as char
    }
}

/// Lowercase hexadecimal text of bytes: two digits per byte, high nibble first.
pub open spec fn hex_text(bytes: Seq<u8>) -> Seq<char>
    decreases bytes.len(),
{
    if bytes.len() == 0 {
        Seq::empty()
    } else {
        hex_text(bytes.drop_last()) + seq![hex_digit(bytes.last() / 16), hex_digit(bytes.last() % 16)]
    }
}

/// Encodes bytes with `hex::encode`, which writes each byte as two lowercase
/// hexadecimal digits, high nibble first.
#[verifier::external_body]
fn hex_encode(bytes: &[u8]) -> (r: String)
    ensures
        r@ == hex_text(bytes@),
{
    hex::encode(bytes)
}

/// Whether `c` is a lowercase hexadecimal digit.
pub open spec fn is_lower_hex(c: char) -> bool {
    ('0' <= c && c <= '9') || ('a' <= c && c <= 'f')
}

/// A fresh random token: the 32 lowercase hexadecimal digits of a fresh
/// uuid (its simple form).
pub fn fresh_token() -> (r: String)
    ensures
        r@.len() == 32,
        forall|i: int| 0 <= i < 32 ==> is_lower_hex(#[trigger] r@[i]),
{
    let uid = crate::models::fresh_uid();
    let v = chars_of(uid.as_str());
    let ghost u = v@;
    let mut out: Vec<char> = Vec::new();
    let mut i: usize = 0;
    while i < v.len()
        invariant
            v@ == u,
            crate::models::is_hyphenated_uuid(u),
            0 <= i <= 36,
            out@.len() == i - (if i > 23 { 4int } else if i > 18 { 3int } else if i > 13 { 2int } else if i > 8 { 1int } else { 0int }),
            forall|k: int| 0 <= k < out@.len() ==> is_lower_hex(#[trigger] out@[k]),
        decreases 36 - i,
    {
        assert(u[i as int] == '-' <==> (i == 8 || i == 13 || i == 18 || i == 23));
        if v[i] != '-' {
            out.push(v[i]);
        }
        i += 1;
    }
    string_of(out.as_slice())
}

/// The digest stored for a secret: hexadecimal SHA-256 of its text.
pub open spec fn secret_digest(secret: Seq<char>) -> Seq<char> {
    hex_text(sha256_of_text(secret))
}

/// A credential secret. It never shows itself in debug output; callers read
/// it only through `expose`.
#[derive(Clone, PartialEq, Eq)]
pub struct Secret(String);

impl View for Secret {
    type V = Seq<char>;

    closed spec fn view(&self) -> Seq<char> {
        self.0@
    }
}

impl Secret {
    /// A secret holding `s`.
    pub fn new(s: &str) -> (r: Secret)
        ensures
            r@ == s@,
    {
        Secret(s.to_owned())
    }

    /// A fresh random secret: 32 lowercase hexadecimal digits (a fresh
    /// uuid's simple form).
    pub fn generate() -> (r: Secret)
        ensures
            r@.len() == 32,
            forall|i: int| 0 <= i < 32 ==> is_lower_hex(#[trigger] r@[i]),
    {
        Secret(fresh_token())
    }

    /// The secret's text, read on purpose (to hand it to its owner once).
    pub fn expose(&self) -> (r: &str)
        ensures
            r@ == self@,
    {
        self.0.as_str()
    }

    /// The hexadecimal SHA-256 digest of the secret: the only form stored.
    pub fn hash(&self) -> (r: String)
        ensures
            r@ == secret_digest(self@),
    {
        let d = sha256_text(self.0.as_str());
        hex_encode(d.as_slice())
    }

    /// The secret's debug text, which hides its contents.
    pub fn debug_text(&self) -> (r: String)
        ensures
            r@ == "Secret(***)"@,
    {
        crate::text::string_from("Secret(***)")
    }
}

/// Why a token or credential was refused.
#[derive(Debug)]
pub enum AuthError {
    /// Unknown, malformed, or not matching what is stored.
    Invalid,
    /// Past its expiry.
    Expired,
    /// The store could not answer.
    Store(StoreError),
}

/// Who a credential authenticates.
#[derive(Debug, Clone, PartialEq, Eq)]
pub enum Identity {
    /// The administrator.
    Admin,
    /// A registered worker, by name.
    Worker(String),
}

/// Whether `i` is the position of the first `.` of `p`.
pub open spec fn first_dot(p: Seq<char>, i: int) -> bool {
    &&& 0 <= i < p.len()
    &&& p[i] == '.'
    &&& forall|k: int| 0 <= k < i ==> p[k] != '.'
}

/// The id and secret of a presented `id.secret` credential: split at the
/// first `.`, both parts non-empty.
pub open spec fn credential_parts(p: Seq<char>) -> Option<(Seq<char>, Seq<char>)> {
    if exists|i: int| first_dot(p, i) {
        let i = choose|i: int| first_dot(p, i);
        if i > 0 && i + 1 < p.len() {
            Some((p.take(i), p.skip(i + 1)))
        } else {
            None
        }
    } else {
        None
    }
}

proof fn lemma_first_dot_unique(p: Seq<char>, i: int, j: int)
    requires
        first_dot(p, i),
        first_dot(p, j),
    ensures
        i == j,
{
    if i < j {
        assert(p[i] != '.');
    } else if j < i {
        assert(p[j] != '.');
    }
}

/// Splits a presented `id.secret` credential at its first `.`; `None` when
/// there is no `.` or either part is empty.
pub fn split_credential(presented: &str) -> (r: Option<(String, Secret)>)
    ensures
        match r {
            Some((id, secret)) => credential_parts(presented@) == Some((id@, secret@)),
            None => credential_parts(presented@) is None,
        },
{
    let v = chars_of(presented);
    let mut i: usize = 0;
    while i < v.len() && v[i] != '.'
        invariant
            v@ == presented@,
            0 <= i <= v@.len(),
            forall|k: int| 0 <= k < i ==> v@[k] != '.',
        decreases v@.len() - i,
    {
        i += 1;
    }
    if i == v.len() {
        assert forall|j: int| !first_dot(presented@, j) by {
            if first_dot(presented@, j) {
                assert(v@[j] != '.');
            }
        }
        return None;
    }
    proof {
        assert(first_dot(presented@, i as int));
        let c = choose|j: int| first_dot(presented@, j);
        lemma_first_dot_unique(presented@, i as int, c);
    }
    if i == 0 || i + 1 == v.len() {
        return None;
    }
    let id = string_of(take_chars(&v, i).as_slice());
    let mut rest: Vec<char> = Vec::new();
    let mut k: usize = i + 1;
    while k < v.len()
        invariant
            v@ == presented@,
            i + 1 <= k <= v@.len(),
            rest@ == v@.subrange(i + 1, k as int),
        decreases v@.len() - k,
    {
        rest.push(v[k]);
        assert(v@.subrange(i + 1, k as int + 1) =~= v@.subrange(i + 1, k as int).push(v@[k as int]));
        k += 1;
    }
    assert(rest@ =~= presented@.skip(i + 1));
    let secret_text = string_of(rest.as_slice());
    Some((id, Secret::new(secret_text.as_str())))
}

/// The credential handed to a worker: `worker.secret`.
pub open spec fn credential_text(worker: Seq<char>, secret: Seq<char>) -> Seq<char> {
    worker + seq!['.'] + secret
}

/// Renders the credential handed to a worker, `worker.secret`.
pub fn issued_credential(worker: &str, secret: &Secret) -> (r: String)
    ensures
        r@ == credential_text(worker@, secret@),
{
    let mut s = crate::text::string_from(worker);
    push_char(&mut s, '.');
    push_str(&mut s, secret.expose());
    s
}

/// The record stored for a worker credential: the secret's digest.
pub open spec fn credential_record_view(secret: Seq<char>) -> JsonView {
    JsonView::Object(seq![("tokenHash"@, JsonView::Str(secret_digest(secret)))])
}

/// Builds the record stored for a worker credential.
pub fn credential_record(secret: &Secret) -> (r: Json)
    ensures
        r@ == credential_record_view(secret@),
{
    let h = secret.hash();
    Json::single_member("tokenHash", Json::string(h.as_str()))
}

/// The record stored for a bootstrap token: the secret's digest and when it
/// expires.
pub open spec fn token_record_view(secret: Seq<char>, expires_at: UtcTime) -> JsonView {
    JsonView::Object(seq![
        ("secretHash"@, JsonView::Str(secret_digest(secret))),
        ("expiresAt"@, JsonView::Str(rfc3339_text(expires_at))),
    ])
}

/// Builds the record stored for a bootstrap token. When the expiry's year
/// has four digits, the record accepts the secret it was made for exactly
/// until it expires, and from then on the verdict is `Expired` whatever
/// secret is presented.
pub fn token_record(secret: &Secret, expires_at: UtcTime) -> (r: Json)
    requires
        valid_time(expires_at),
    ensures
        r@ == token_record_view(secret@, expires_at),
        four_digit_year(expires_at) ==> expiry_of(r@) == Some(expires_at),
        four_digit_year(expires_at) ==> forall|now: UtcTime| #[trigger] token_accepts(Some(r@), secret@, now) <==> epoch_nanos(now) < epoch_nanos(expires_at),
        four_digit_year(expires_at) ==> forall|now: UtcTime| #[trigger] token_expired(Some(r@), now) <==> epoch_nanos(now) >= epoch_nanos(expires_at),
        four_digit_year(expires_at) ==> forall|now: UtcTime, other: Seq<char>| epoch_nanos(now) >= epoch_nanos(expires_at) ==> !#[trigger] token_accepts(Some(r@), other, now),
{
    let h = secret.hash();
    let e = format_rfc3339(expires_at);
    let mut doc = Json::single_member("secretHash", Json::string(h.as_str()));
    doc.insert("expiresAt", Json::string(e.as_str()));
    proof {
        if four_digit_year(expires_at) {
            let rv = token_record_view(secret@, expires_at);
            lemma_token_record_expiry(secret@, secret@, expires_at, expires_at);
            assert forall|now: UtcTime| #[trigger] token_accepts(Some(rv), secret@, now) <==> epoch_nanos(now) < epoch_nanos(expires_at) by {
                lemma_token_record_expiry(secret@, secret@, expires_at, now);
            }
            assert forall|now: UtcTime| #[trigger] token_expired(Some(rv), now) <==> epoch_nanos(now) >= epoch_nanos(expires_at) by {
                lemma_token_record_expiry(secret@, secret@, expires_at, now);
            }
            assert forall|now: UtcTime, other: Seq<char>| epoch_nanos(now) >= epoch_nanos(expires_at) implies !#[trigger] token_accepts(Some(rv), other, now) by {
                lemma_token_record_expiry(secret@, other, expires_at, now);
            }
        }
        reveal_strlit("secretHash");
        reveal_strlit("expiresAt");
        assert("secretHash"@ != "expiresAt"@) by {
            assert("secretHash"@[0] != "expiresAt"@[0]);
        }
        let first = seq![("secretHash"@, JsonView::Str(secret_digest(secret@)))];
        let added = ("expiresAt"@, JsonView::Str(rfc3339_text(expires_at)));
        assert(first.drop_first() =~= Seq::<(Seq<char>, JsonView)>::empty());
        assert(crate::json::entries_set(first.drop_first(), "expiresAt"@, added.1) == seq![added]);
        assert(crate::json::entries_set(first, "expiresAt"@, added.1) =~= first + seq![added]);
        assert(first + seq![added] =~= seq![first[0], added]);
    }
    doc
}

/// Whether a stored credential record accepts a presented secret: its
/// `tokenHash` is the secret's digest.
pub open spec fn credential_accepts(record: Option<JsonView>, secret: Seq<char>) -> bool {
    match record {
        Some(doc) => str_of(json_get(doc, "tokenHash"@)) == Some(secret_digest(secret)),
        None => false,
    }
}

/// Authenticates a presented worker secret against the record stored for
/// that worker (`None` when there is none): the worker's identity when the
/// record holds the secret's digest, else `None`.
pub fn credential_verdict(worker: &str, record: Option<&Json>, secret: &Secret) -> (r: Option<Identity>)
    ensures
        r is Some <==> credential_accepts(
            match record {
                Some(d) => Some(d@),
                None => None,
            },
            secret@,
        ),
        r is Some ==> (r matches Some(Identity::Worker(w)) && w@ == worker@),
{
    let doc = match record {
        Some(d) => d,
        None => return None,
    };
    let stored = match doc.get("tokenHash") {
        Some(v) => match v.as_str() {
            Some(s) => s,
            None => return None,
        },
        None => return None,
    };
    let h = secret.hash();
    if str_eq(stored.as_str(), h.as_str()) {
        Some(Identity::Worker(crate::text::string_from(worker)))
    } else {
        None
    }
}

/// When a bootstrap token's record says it expires.
pub open spec fn expiry_of(doc: JsonView) -> Option<UtcTime> {
    match str_of(json_get(doc, "expiresAt"@)) {
        Some(t) => rfc3339_instant(t),
        None => None,
    }
}

/// Whether a bootstrap token is past its expiry at `now`.
pub open spec fn token_expired(record: Option<JsonView>, now: UtcTime) -> bool {
    match record {
        Some(doc) => match expiry_of(doc) {
            Some(e) => epoch_nanos(now) >= epoch_nanos(e),
            None => false,
        },
        None => false,
    }
}

/// Whether a bootstrap token's record accepts a presented secret at `now`:
/// it has an expiry after `now` and holds the secret's digest.
pub open spec fn token_accepts(record: Option<JsonView>, secret: Seq<char>, now: UtcTime) -> bool {
    match record {
        Some(doc) => match expiry_of(doc) {
            Some(e) => epoch_nanos(now) < epoch_nanos(e) && str_of(json_get(doc, "secretHash"@)) == Some(
                secret_digest(secret),
            ),
            None => false,
        },
        None => false,
    }
}

/// Verifies a presented bootstrap secret against the record stored for its
/// token id (`None` when there is none), at `now`: `Expired` when the token
/// is past its expiry, `Ok` when it holds the secret's digest, else
/// `Invalid`.
pub fn bootstrap_verdict(record: Option<&Json>, secret: &Secret, now: UtcTime) -> (r: Result<(), AuthError>)
    ensures
        ({
            let rv = match record {
                Some(d) => Some(d@),
                None => None,
            };
            &&& r is Ok <==> token_accepts(rv, secret@, now)
            &&& (r matches Err(AuthError::Expired)) <==> token_expired(rv, now)
            &&& (r matches Err(AuthError::Invalid)) <==> !token_accepts(rv, secret@, now) && !token_expired(rv, now)
        }),
{
    let doc = match record {
        Some(d) => d,
        None => return Err(AuthError::Invalid),
    };
    let expires = match doc.get("expiresAt") {
        Some(v) => match v.as_str() {
            Some(s) => match parse_rfc3339(s.as_str()) {
                Some(t) => t,
                None => return Err(AuthError::Invalid),
            },
            None => return Err(AuthError::Invalid),
        },
        None => return Err(AuthError::Invalid),
    };
    if !instant_before(now, expires) {
        return Err(AuthError::Expired);
    }
    let stored = match doc.get("secretHash") {
        Some(v) => match v.as_str() {
            Some(s) => s,
            None => return Err(AuthError::Invalid),
        },
        None => return Err(AuthError::Invalid),
    };
    let h = secret.hash();
    if str_eq(stored.as_str(), h.as_str()) {
        Ok(())
    } else {
        Err(AuthError::Invalid)
    }
}

/// The name under which the administrator's credential is kept; an
/// administrator presents `admin.<secret>`.
pub const ADMIN_NAME: &'static str = "admin";

/// Who a presented `who.secret` credential authenticates, given the stored
/// admin credential record and the credential record stored for worker
/// `who` (each `None` when there is none). When `who` is the admin name and
/// the admin record accepts the secret, the administrator; otherwise the
/// worker `who` when its record accepts the secret; else nobody. A worker
/// that happens to be named `admin` still authenticates with its own
/// credential.
pub fn authentication_verdict(who: &str, secret: &Secret, admin_record: Option<&Json>, worker_record: Option<&Json>) -> (r: Option<Identity>)
    ensures
        ({
            let admin = who@ == ADMIN_NAME@ && credential_accepts(
                match admin_record { Some(d) => Some(d@), None => None },
                secret@,
            );
            let worker = credential_accepts(
                match worker_record { Some(d) => Some(d@), None => None },
                secret@,
            );
            &&& admin ==> r == Some(Identity::Admin)
            &&& !admin && worker ==> (r matches Some(Identity::Worker(w)) && w@ == who@)
            &&& !admin && !worker ==> r is None
        }),
{
    if str_eq(who, ADMIN_NAME) {
        if credential_verdict(who, admin_record, secret).is_some() {
            return Some(Identity::Admin);
        }
    }
    credential_verdict(who, worker_record, secret)
}

/// The expiry of a bootstrap token minted at `now` to live `ttl_secs`
/// seconds (negative for one already expired), or `None` when that instant
/// is not a valid time.
pub open spec fn expiry_after(now: UtcTime, ttl_secs: i64) -> Option<UtcTime> {
    let secs = now.secs + ttl_secs;
    if i64::MIN <= secs <= i64::MAX && valid_time(UtcTime { secs: secs as i64, nanos: now.nanos }) {
        Some(UtcTime { secs: secs as i64, nanos: now.nanos })
    } else {
        None
    }
}

/// A minted token's lifetime: a token minted at `minted` with a positive
/// time to live expires after its minting, and one minted with a time to
/// live of zero or less is already past its expiry at every instant from its
/// minting on (so, by `law_bootstrap_token_round_trip`, it is refused as
/// expired whatever secret is presented).
pub proof fn law_minted_token_lifetime(minted: UtcTime, ttl_secs: i64, now: UtcTime)
    ensures
        expiry_after(minted, ttl_secs) matches Some(e) ==> {
            &&& ttl_secs > 0 <==> epoch_nanos(minted) < epoch_nanos(e)
            &&& ttl_secs <= 0 && epoch_nanos(now) >= epoch_nanos(minted) ==> epoch_nanos(now) >= epoch_nanos(e)
        },
{
}

/// When a bootstrap token minted at `now` to live `ttl_secs` seconds expires.
pub fn bootstrap_expiry(now: UtcTime, ttl_secs: i64) -> (r: Option<UtcTime>)
    ensures
        r == expiry_after(now, ttl_secs),
{
    match now.secs.checked_add(ttl_secs) {
        Some(secs) => {
            let t = UtcTime { secs, nanos: now.nanos };
            if t.nanos < 1_000_000_000 && -8_000_000_000_000 <= secs && secs <= 8_000_000_000_000 {
                Some(t)
            } else {
                None
            }
        },
        None => None,
    }
}

/// A credential authenticates its worker until it is revoked: the credential
/// issued to a worker whose name has no `.` splits back into that worker and
/// secret, and the record stored for it accepts that secret; a presented
/// secret whose digest differs is refused; once the record is gone (revoked),
/// every secret is refused. (Whether two different secrets share a digest is
/// SHA-256's matter; it is left as the condition.)
pub proof fn law_issued_credential_authenticates(worker: Seq<char>, secret: Seq<char>, presented: Seq<char>)
    requires
        worker.len() > 0,
        secret.len() > 0,
        forall|i: int| 0 <= i < worker.len() ==> worker[i] != '.',
    ensures
        credential_parts(credential_text(worker, secret)) == Some((worker, secret)),
        credential_accepts(Some(credential_record_view(secret)), secret),
        secret_digest(presented) != secret_digest(secret) ==> !credential_accepts(Some(credential_record_view(secret)), presented),
        !credential_accepts(None, presented),
{
    let p = credential_text(worker, secret);
    let n = worker.len() as int;
    assert forall|k: int| 0 <= k < n implies p[k] != '.' by {
        assert(p[k] == worker[k]);
    }
    assert(first_dot(p, n));
    let c = choose|j: int| first_dot(p, j);
    lemma_first_dot_unique(p, n, c);
    assert(p.take(n) =~= worker);
    assert(p.skip(n + 1) =~= secret);
    assert(credential_record_view(secret) matches JsonView::Object(m) && m[0].0 == "tokenHash"@);
}

proof fn lemma_token_record_expiry(secret: Seq<char>, other: Seq<char>, expires_at: UtcTime, now: UtcTime)
    requires
        valid_time(expires_at),
        four_digit_year(expires_at),
        rfc3339_instant(rfc3339_text(expires_at)) == Some(expires_at),
    ensures
        expiry_of(token_record_view(secret, expires_at)) == Some(expires_at),
        token_accepts(Some(token_record_view(secret, expires_at)), secret, now) <==> epoch_nanos(now) < epoch_nanos(expires_at),
        token_expired(Some(token_record_view(secret, expires_at)), now) <==> epoch_nanos(now) >= epoch_nanos(expires_at),
        epoch_nanos(now) >= epoch_nanos(expires_at) ==> !token_accepts(Some(token_record_view(secret, expires_at)), other, now),
{
    reveal_strlit("secretHash");
    reveal_strlit("expiresAt");
    assert("secretHash"@[0] != "expiresAt"@[0]);
    let m = token_record_view(secret, expires_at)->Object_0;
    assert(m.drop_first()[0].0 == "expiresAt"@);
    reveal_with_fuel(crate::json::lookup, 3);
    assert(expiry_of(token_record_view(secret, expires_at)) == Some(expires_at));
}

/// A bootstrap token's round trip: the record stored for a token that expires
/// at `expires_at` (and reads that expiry back) accepts the token's own
/// secret at every instant before the expiry; before it, a presented secret
/// whose digest differs is refused as invalid, not expired; from the expiry
/// on, every presented secret is refused as expired. (Whether two different
/// secrets share a digest is SHA-256's matter; it is left as the condition.)
pub proof fn law_bootstrap_token_round_trip(
    secret: Seq<char>,
    presented: Seq<char>,
    expires_at: UtcTime,
    now: UtcTime,
)
    requires
        expiry_of(token_record_view(secret, expires_at)) == Some(expires_at),
    ensures
        ({
            let rec = Some(token_record_view(secret, expires_at));
            &&& epoch_nanos(now) < epoch_nanos(expires_at) ==> token_accepts(rec, secret, now) && !token_expired(rec, now)
            &&& (epoch_nanos(now) < epoch_nanos(expires_at) && secret_digest(presented) != secret_digest(secret))
                ==> !token_accepts(rec, presented, now) && !token_expired(rec, now)
            &&& epoch_nanos(now) >= epoch_nanos(expires_at) ==> token_expired(rec, now) && !token_accepts(rec, presented, now)
        }),
{
    reveal_strlit("secretHash");
    reveal_strlit("expiresAt");
    assert("secretHash"@[0] != "expiresAt"@[0]);
    let m = token_record_view(secret, expires_at)->Object_0;
    assert(m[0].0 == "secretHash"@);
}

} // verus!
