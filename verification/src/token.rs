//! Stateless signed-token codec: issues and verifies compact, self-contained
//! authorization tokens of the form `message "." signature`, where the
//! signature is a keyed MAC over the message. The key is injected at
//! construction and immutable for the codec's lifetime; rotating it
//! invalidates every outstanding token (a known design limitation).

use vstd::prelude::*;

verus! {

/// Index of the last `'.'` in `t`, or `-1` when `t` has none.
pub open spec fn last_dot(t: Seq<char>) -> int
    decreases t.len(),
{
    if t.len() == 0 {
        -1
    } else if t[t.len() - 1] == '.' {
        t.len() - 1
    } else {
        last_dot(t.drop_last())
    }
}

pub open spec fn has_dot(t: Seq<char>) -> bool {
    last_dot(t) >= 0
}

/// Everything before the last `'.'`: for a well-formed token, the signed message.
pub open spec fn msg_segment(t: Seq<char>) -> Seq<char> {
    if has_dot(t) {
        t.subrange(0, last_dot(t))
    } else {
        Seq::empty()
    }
}

/// Everything after the last `'.'`: for a well-formed token, its signature segment.
pub open spec fn sig_segment(t: Seq<char>) -> Seq<char> {
    if has_dot(t) {
        t.subrange(last_dot(t) + 1, t.len() as int)
    } else {
        t
    }
}

proof fn lemma_last_dot_bounds(t: Seq<char>)
    ensures
        -1 <= last_dot(t) < t.len(),
        last_dot(t) >= 0 ==> t[last_dot(t)] == '.',
        forall|j: int| last_dot(t) < j < t.len() ==> t[j] != '.',
    decreases t.len(),
{
    if t.len() > 0 && t[t.len() - 1] != '.' {
        lemma_last_dot_bounds(t.drop_last());
        assert forall|j: int| last_dot(t) < j < t.len() implies t[j] != '.' by {
            if j < t.len() - 1 {
                assert(t.drop_last()[j] == t[j]);
            }
        }
    }
}

/// Splitting at the last dot recovers the two halves of `m + "." + s`
/// whenever the right half contains no dot of its own.
pub proof fn lemma_token_segments(m: Seq<char>, s: Seq<char>)
    requires
        !s.contains('.'),
    ensures
        has_dot(m + seq!['.'] + s),
        msg_segment(m + seq!['.'] + s) == m,
        sig_segment(m + seq!['.'] + s) == s,
{
    let t = m + seq!['.'] + s;
    lemma_last_dot_at(m, s);
    assert(msg_segment(t) =~= m);
    assert(sig_segment(t) =~= s);
}

proof fn lemma_last_dot_at(m: Seq<char>, s: Seq<char>)
    requires
        !s.contains('.'),
    ensures
        last_dot(m + seq!['.'] + s) == m.len(),
    decreases s.len(),
{
    let t = m + seq!['.'] + s;
    if s.len() == 0 {
        assert(t[t.len() - 1] == '.');
    } else {
        assert(t[t.len() - 1] == s[s.len() - 1]);
        assert(s.contains(s[s.len() - 1]));
        assert(t.drop_last() =~= m + seq!['.'] + s.drop_last());
        assert(forall|c: char| s.drop_last().contains(c) ==> s.contains(c));
        lemma_last_dot_at(m, s.drop_last());
    }
}

/// The signature segment of a dotted token never contains a dot itself.
pub proof fn lemma_sig_segment_has_no_dot(t: Seq<char>)
    requires
        has_dot(t),
    ensures
        !sig_segment(t).contains('.'),
{
    lemma_last_dot_bounds(t);
}

/// The token that the outside encoder produces for a subject, an expiry and a
/// key; deterministic in its arguments.
pub uninterp spec fn jwt_of(sub: i32, exp: i64, key: Seq<u8>) -> Seq<char>;

/// The encoded MAC that the outside signer computes over a message with a key;
/// deterministic in its arguments.
pub uninterp spec fn mac_sig(message: Seq<char>, key: Seq<u8>) -> Seq<char>;

/// The claims that the outside decoder (with expiry validation disabled)
/// recovers from a token under a key, or `None` when it rejects the token;
/// deterministic in its arguments.
pub uninterp spec fn jwt_claims_of(token: Seq<char>, key: Seq<u8>) -> Option<(i32, i64)>;

/// A token whose message segment is one the encoder produces (under `key`),
/// but whose signature segment is not the MAC of that message: the result of
/// tampering with an issued token's signature.
pub open spec fn tampered_issued_token(t: Seq<char>, key: Seq<u8>) -> bool {
    has_dot(t) && (exists|s: i32, e: i64|
        msg_segment(t) == msg_segment(jwt_of(s, e, key))) && sig_segment(t) != mac_sig(
        msg_segment(t),
        key,
    )
}

/// Decoding rejected the token because its signature does not match.
pub open spec fn rejected_as_bad_signature(r: Result<Claims, Rejected>) -> bool {
    r == Err::<Claims, Rejected>(Rejected::BadSignature)
}

/// Tamper detection: take an issued token — it splits as `message "."
/// signature`, with the signature being the MAC of the message (both facts are
/// ensured by `TokenCodec::issue`) — and replace its signature segment with
/// any other dot-free segment. The forged token then satisfies
/// `tampered_issued_token`, the hypothesis under which `TokenCodec::verify`
/// promises `BadSignature` and nothing else: never a false-positive subject.
pub proof fn lemma_forged_signature_is_tampered(
    sub: i32,
    exp: i64,
    key: Seq<u8>,
    forged: Seq<char>,
)
    requires
        !forged.contains('.'),
        forged != sig_segment(jwt_of(sub, exp, key)),
        has_dot(jwt_of(sub, exp, key)),
        sig_segment(jwt_of(sub, exp, key)) == mac_sig(msg_segment(jwt_of(sub, exp, key)), key),
    ensures
        tampered_issued_token(msg_segment(jwt_of(sub, exp, key)) + seq!['.'] + forged, key),
{
    lemma_token_segments(msg_segment(jwt_of(sub, exp, key)), forged);
}

/// The payload carried by a token: a subject identifier and an absolute expiry.
#[derive(Clone, Copy, PartialEq, Eq, Structural, Debug)]
pub struct Claims {
    pub sub: i32,
    pub exp: i64,
}

/// Why a token was not accepted: the signature did not match, the token could
/// not be decoded at all, or it was past its expiry.
#[derive(Clone, Copy, PartialEq, Eq, Structural, Debug)]
pub enum Rejected {
    BadSignature,
    Malformed,
    Expired,
}

/// Relies on jsonwebtoken::encode with an HS256 header and a fixed two-field
/// claims object: deterministic in the subject, expiry and key; the result is
/// `message "." signature` where the signature segment is exactly the encoded
/// MAC of the message segment under the key.
#[verifier::external_body]
fn jwt_encode(sub: i32, exp: i64, key: &[u8]) -> (r: String)
    ensures
        r@ == jwt_of(sub, exp, key@),
        has_dot(r@),
        sig_segment(r@) == mac_sig(msg_segment(r@), key@),
        jwt_claims_of(r@, key@) == Some((sub, exp)),
{
    let mut claims = serde_json::Map::new();
    claims.insert("sub".to_owned(), serde_json::Value::from(sub));
    claims.insert("exp".to_owned(), serde_json::Value::from(exp));
    let header = jsonwebtoken::Header::new(jsonwebtoken::Algorithm::HS256);
    let key = jsonwebtoken::EncodingKey::from_secret(key);
    jsonwebtoken::encode(&header, &serde_json::Value::Object(claims), &key)
        .expect("HMAC signing does not fail")
}

/// Relies on jsonwebtoken::decode with expiry validation disabled: it accepts
/// the canonical encoding of any claims under the key; it accepts a token only
/// if the token's signature segment equals the encoded MAC of its message
/// segment; and it reports a signature mismatch as such whenever the message
/// segment is one the encoder produces (so the header is well formed).
#[verifier::external_body]
fn jwt_decode(token: &str, key: &[u8]) -> (r: Result<Claims, Rejected>)
    ensures
        r is Ok <==> jwt_claims_of(token@, key@) is Some,
        r matches Ok(c) ==> jwt_claims_of(token@, key@) == Some((c.sub, c.exp)),
        r is Ok ==> sig_segment(token@) == mac_sig(msg_segment(token@), key@),
        r matches Err(f) ==> (f == Rejected::BadSignature || f == Rejected::Malformed),
        rejected_as_bad_signature(r) <== tampered_issued_token(token@, key@),
{
    let mut v = jsonwebtoken::Validation::new(jsonwebtoken::Algorithm::HS256);
    (v.validate_exp, v.required_spec_claims) = (false, std::collections::HashSet::new());
    let key = jsonwebtoken::DecodingKey::from_secret(key);
    match jsonwebtoken::decode::<serde_json::Value>(token, &key, &v) {
        Ok(d) => match (d.claims["sub"].as_i64().and_then(|s| i32::try_from(s).ok()), d.claims["exp"].as_i64()) {
            (Some(sub), Some(exp)) => Ok(Claims { sub, exp }),
            _ => Err(Rejected::Malformed),
        },
        Err(e) if matches!(e.kind(), jsonwebtoken::errors::ErrorKind::InvalidSignature) => Err(Rejected::BadSignature),
        Err(_) => Err(Rejected::Malformed),
    }
}

/// Signs and verifies self-contained authorization tokens with a fixed,
/// process-scoped key.
pub struct TokenCodec {
    key: Vec<u8>,
}

impl TokenCodec {
    /// The key material this codec signs and verifies with.
    pub closed spec fn key(&self) -> Seq<u8> {
        self.key@
    }

    pub fn new(key: Vec<u8>) -> (r: Self)
        ensures
            r.key() == key@,
    {
        TokenCodec { key }
    }

    /// Issues a signed token for `subject` that expires `ttl` seconds after `now`.
    pub fn issue(&self, subject: i32, ttl: i64, now: i64) -> (r: String)
        requires
            i64::MIN <= now + ttl <= i64::MAX,
        ensures
            r@ == jwt_of(subject, (now + ttl) as i64, self.key()),
            jwt_claims_of(r@, self.key()) == Some((subject, (now + ttl) as i64)),
            has_dot(r@),
            sig_segment(r@) == mac_sig(msg_segment(r@), self.key()),
    {
        jwt_encode(subject, now + ttl, self.key.as_slice())
    }

    /// Verifies a token and returns the verified claims, whose `sub` field is
    /// the authenticated subject. A token is accepted iff its signature
    /// matches and `now` is before its expiry. Tampering with the signature
    /// segment of an issued token is always reported as `BadSignature`, never
    /// as a different subject.
    pub fn verify(&self, token: &str, now: i64) -> (r: Result<Claims, Rejected>)
        ensures
            jwt_claims_of(token@, self.key()) matches Some(ce)
                ==> r == (if now < ce.1 {
                    Ok::<Claims, Rejected>(Claims { sub: ce.0, exp: ce.1 })
                } else {
                    Err::<Claims, Rejected>(Rejected::Expired)
                }),
            jwt_claims_of(token@, self.key()) is None ==> r is Err && r != Err::<Claims, Rejected>(
                Rejected::Expired,
            ),
            r is Ok ==> sig_segment(token@) == mac_sig(msg_segment(token@), self.key()),
            tampered_issued_token(token@, self.key()) ==> r == Err::<Claims, Rejected>(
                Rejected::BadSignature,
            ),
    {
        match jwt_decode(token, self.key.as_slice()) {
            Ok(claims) => {
                if now < claims.exp {
                    Ok(claims)
                } else {
                    Err(Rejected::Expired)
                }
            }
            Err(fault) => Err(fault),
        }
    }

    /// Token round trip: verifying a token immediately after issuing it yields
    /// the issued subject whenever the lifetime is positive, and `Expired`
    /// whenever it is not.
    pub fn issue_then_verify(&self, subject: i32, ttl: i64, now: i64) -> (r: Result<
        Claims,
        Rejected,
    >)
        requires
            i64::MIN <= now + ttl <= i64::MAX,
        ensures
            ttl > 0 ==> r == Ok::<Claims, Rejected>(
                Claims { sub: subject, exp: (now + ttl) as i64 },
            ),
            ttl <= 0 ==> r == Err::<Claims, Rejected>(Rejected::Expired),
    {
        let token = self.issue(subject, ttl, now);
        self.verify(token.as_str(), now)
    }
}

} // verus!
