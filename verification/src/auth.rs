//! Accounts: the forms of registration and log-in, token claims, and the
//! checks on what users send.
use vstd::prelude::*;

use crate::text::{chars_of, push_range, push_str, trim_seq, trim_str};
use crate::numbers::{parse_int_seq, parse_usize};
use crate::tool_params::{
    find_param, from_serde_value, json_view, lemma_object_view, param, str_param,
    str_param_of, JsonValue, JsonView,
};
use crate::tools::{parse_uuid, uuid_bits};

verus! {

/// The body of a registration.
#[derive(Debug, Clone)]
pub struct RegisterRequest {
    pub email: String,
    pub first_name: String,
    pub last_name: String,
    pub password: String,
}

/// The log-in form.
#[derive(Debug, Clone)]
pub struct LoginForm {
    pub username: String,
    pub password: String,
}

/// The answer to a successful log-in.
#[derive(Debug, Clone)]
pub struct TokenResponse {
    pub access_token: String,
    pub token_type: &'static str,
}

impl TokenResponse {
    /// A bearer token answer.
    pub fn bearer(access_token: String) -> (r: Self)
        ensures
            r.access_token == access_token,
            r.token_type@ == "bearer"@,
    {
        TokenResponse { access_token, token_type: "bearer" }
    }
}

/// What an access token asserts: the user's e-mail, their id and when the
/// token expires (seconds since the Unix epoch).
#[derive(Debug, Clone)]
pub struct Claims {
    pub sub: String,
    pub id: String,
    pub exp: usize,
}

/// The user an access token names: the UUID in its `id` claim, as 128 bits,
/// when it is one.
pub fn claims_user_id(claims: &Claims) -> (r: Option<u128>)
    ensures
        r == uuid_bits(claims.id@),
{
    parse_uuid(claims.id.as_str())
}

/// The number of bytes of the UTF-8 encoding of `c`.
pub open spec fn utf8_width(c: char) -> nat {
    if (c as u32) < 0x80 {
        1
    } else if (c as u32) < 0x800 {
        2
    } else if (c as u32) < 0x10000 {
        3
    } else {
        4
    }
}

/// The number of bytes of the UTF-8 encoding of `s` (`str::len`).
pub open spec fn utf8_len(s: Seq<char>) -> nat
    decreases s.len(),
{
    if s.len() == 0 {
        0
    } else {
        utf8_len(s.drop_last()) + utf8_width(s.last())
    }
}

/// The length of `s` in bytes, up to `cap`: `min(utf8_len(s), cap)`.
fn byte_len_upto(s: &str, cap: usize) -> (r: usize)
    ensures
        r == if utf8_len(s@) < cap {
            utf8_len(s@)
        } else {
            cap as nat
        },
{
    let v = chars_of(s);
    let mut n: usize = 0;
    let mut i: usize = 0;
    while i < v.len()
        invariant
            i <= v@.len(),
            v@ == s@,
            n == if utf8_len(v@.take(i as int)) < cap {
                utf8_len(v@.take(i as int))
            } else {
                cap as nat
            },
        decreases v@.len() - i,
    {
        let c = v[i] as u32;
        let w: usize = if c < 0x80 {
            1
        } else if c < 0x800 {
            2
        } else if c < 0x10000 {
            3
        } else {
            4
        };
        assert(v@.take(i + 1).drop_last() =~= v@.take(i as int));
        if n < cap {
            if w <= cap - n {
                n = n + w;
            } else {
                n = cap;
            }
        }
        i = i + 1;
    }
    assert(v@.take(i as int) =~= s@);
    n
}

/// Whether `s` holds the character `c`.
pub open spec fn has_char(s: Seq<char>, c: char) -> bool {
    exists|i: int| 0 <= i < s.len() && s[i] == c
}

fn contains_char(s: &str, c: char) -> (r: bool)
    ensures
        r == has_char(s@, c),
{
    let v = chars_of(s);
    let mut i: usize = 0;
    while i < v.len()
        invariant
            i <= v@.len(),
            v@ == s@,
            forall|j: int| 0 <= j < i ==> v@[j] != c,
        decreases v@.len() - i,
    {
        if v[i] == c {
            return true;
        }
        i = i + 1;
    }
    false
}

/// What is wrong with a registration, if anything: the checks run in order
/// on the e-mail (an `@` and at least 3 bytes), the password (at least 8 bytes)
/// and the names (not blank).
pub open spec fn registration_problem(
    email: Seq<char>,
    password: Seq<char>,
    first_name: Seq<char>,
    last_name: Seq<char>,
) -> Option<Seq<char>> {
    if !has_char(email, '@') || utf8_len(email) < 3 {
        Some("a valid email is required"@)
    } else if utf8_len(password) < 8 {
        Some("password must be at least 8 characters"@)
    } else if trim_seq(first_name).len() == 0 || trim_seq(last_name).len() == 0 {
        Some("first and last name are required"@)
    } else {
        None
    }
}

/// Checks a registration; the error is the message of the bad request.
pub fn validate_registration(body: &RegisterRequest) -> (r: Result<(), String>)
    ensures
        match registration_problem(body.email@, body.password@, body.first_name@, body.last_name@) {
            Some(m) => r matches Err(e) && e@ == m,
            None => r is Ok,
        },
{
    let mut msg = String::new();
    if !contains_char(body.email.as_str(), '@') || byte_len_upto(body.email.as_str(), 3) < 3 {
        push_str(&mut msg, "a valid email is required");
        return Err(msg);
    }
    if byte_len_upto(body.password.as_str(), 8) < 8 {
        push_str(&mut msg, "password must be at least 8 characters");
        return Err(msg);
    }
    if trim_str(body.first_name.as_str()).as_str().is_empty() || trim_str(body.last_name.as_str()).as_str().is_empty() {
        push_str(&mut msg, "first and last name are required");
        return Err(msg);
    }
    Ok(())
}

/// A registration is accepted exactly when the e-mail holds an `@` and is at
/// least 3 bytes long, the password is at least 8 bytes long, and neither
/// the first nor the last name is blank; with a good e-mail and password, a
/// blank first or last name is refused as a missing name.
pub proof fn law_registration_names(
    email: Seq<char>,
    password: Seq<char>,
    first_name: Seq<char>,
    last_name: Seq<char>,
)
    ensures
        registration_problem(email, password, first_name, last_name) is None <==> (has_char(email, '@')
            && utf8_len(email) >= 3 && utf8_len(password) >= 8 && trim_seq(first_name).len() > 0
            && trim_seq(last_name).len() > 0),
        (trim_seq(first_name).len() == 0 || trim_seq(last_name).len() == 0) ==> registration_problem(
            email,
            password,
            first_name,
            last_name,
        ) is Some,
        (has_char(email, '@') && utf8_len(email) >= 3 && utf8_len(password) >= 8 && (trim_seq(
            first_name,
        ).len() == 0 || trim_seq(last_name).len() == 0)) ==> registration_problem(
            email,
            password,
            first_name,
            last_name,
        ) == Some("first and last name are required"@),
{
}

/// Checks a new password; the error is the message of the bad request.
pub fn validate_new_password(new_password: &str) -> (r: Result<(), String>)
    ensures
        utf8_len(new_password@) < 8 ==> (r matches Err(e) && e@ == "new password must be at least 8 characters"@),
        utf8_len(new_password@) >= 8 ==> r is Ok,
{
    if byte_len_upto(new_password, 8) < 8 {
        let mut msg = String::new();
        push_str(&mut msg, "new password must be at least 8 characters");
        return Err(msg);
    }
    Ok(())
}

/// The token of an `Authorization: Bearer <token>` header: what follows
/// "Bearer ", trimmed, when that is not empty.
pub open spec fn bearer_of(header: Seq<char>) -> Option<Seq<char>> {
    let prefix = "Bearer "@;
    if header.len() >= prefix.len() && header.take(prefix.len() as int) == prefix {
        let t = trim_seq(header.skip(prefix.len() as int));
        if t.len() > 0 {
            Some(t)
        } else {
            None
        }
    } else {
        None
    }
}

/// The token of an `Authorization` header value.
pub fn bearer_token(header: &str) -> (r: Option<String>)
    ensures
        match bearer_of(header@) {
            Some(t) => r matches Some(s) && s@ == t,
            None => r is None,
        },
{
    let v = chars_of(header);
    let p = chars_of("Bearer ");
    if v.len() < p.len() {
        return None;
    }
    let mut i: usize = 0;
    while i < p.len()
        invariant
            i <= p@.len(),
            p@.len() <= v@.len(),
            v@ == header@,
            p@ == "Bearer "@,
            forall|j: int| 0 <= j < i ==> v@[j] == p@[j],
        decreases p@.len() - i,
    {
        if v[i] != p[i] {
            proof {
                assert(v@.take(p@.len() as int)[i as int] == v@[i as int]);
                assert(v@.take(p@.len() as int) != p@);
            }
            return None;
        }
        i = i + 1;
    }
    assert(v@.take(p@.len() as int) =~= p@);
    let mut rest = String::new();
    push_range(&mut rest, &v, p.len(), v.len());
    assert(v@.subrange(p@.len() as int, v@.len() as int) =~= v@.skip(p@.len() as int));
    let t = trim_str(rest.as_str());
    if t.as_str().is_empty() {
        None
    } else {
        Some(t)
    }
}

/// Why a token is refused.
#[derive(Debug, Clone, Copy, PartialEq, Eq, Structural)]
pub enum AuthError {
    Unauthorized,
}

/// The claims of `token` as a JSON value (`jsonwebtoken::decode` into a
/// `serde_json::Value`, with an HS256 key made from `secret` and the default
/// validation, converted variant by variant); `Err` when the signature does
/// not hold, the token is malformed or it has expired. Whether it has expired
/// depends on the clock, so nothing is stated of the result.
#[verifier::external_body]
fn decode_claims(token: &str, secret: &str) -> (r: Result<JsonValue, ()>) {
    jsonwebtoken::decode::<serde_json::Value>(
        token,
        &jsonwebtoken::DecodingKey::from_secret(secret.as_bytes()),
        &jsonwebtoken::Validation::default(),
    ).map(|d| from_serde_value(d.claims)).map_err(|_| ())
}

/// The claims that a decoded token's JSON value holds: an object whose `sub`
/// and `id` are strings and whose `exp` is a number written as digits that
/// fit a `usize`.
pub open spec fn claims_fields(v: JsonView) -> Option<(Seq<char>, Seq<char>, int)> {
    match v {
        JsonView::Object(ms) => match (str_param_of(ms, "sub"@), str_param_of(ms, "id"@), param(ms, "exp"@)) {
            (Some(s), Some(i), Some(JsonView::Number(t))) => match parse_int_seq(t, false, 0, usize::MAX as int) {
                Ok(e) => Some((s, i, e)),
                Err(_) => None,
            },
            _ => None,
        },
        _ => None,
    }
}

/// The claims of a decoded token, or `Unauthorized` when it was refused or
/// does not hold them.
pub fn claims_of(decoded: Result<JsonValue, ()>) -> (r: Result<Claims, AuthError>)
    ensures
        match decoded {
            Ok(v) => match claims_fields(json_view(v)) {
                Some((s, i, e)) => r matches Ok(c) && c.sub@ == s && c.id@ == i && c.exp == e,
                None => r == Err::<Claims, AuthError>(AuthError::Unauthorized),
            },
            Err(_) => r == Err::<Claims, AuthError>(AuthError::Unauthorized),
        },
{
    match decoded {
        Ok(JsonValue::Object(ms)) => {
            proof {
                lemma_object_view(ms);
            }
            let sub = str_param(&ms, "sub");
            let id = str_param(&ms, "id");
            let exp = match find_param(&ms, "exp") {
                Some(k) => match &ms[k].1 {
                    JsonValue::Number(t) => match parse_usize(t.as_str()) {
                        Ok(e) => Some(e),
                        Err(_) => None,
                    },
                    _ => None,
                },
                None => None,
            };
            match (sub, id, exp) {
                (Some(s), Some(i), Some(e)) => {
                    let mut sub = String::new();
                    push_str(&mut sub, s);
                    let mut id = String::new();
                    push_str(&mut id, i);
                    Ok(Claims { sub, id, exp: e })
                },
                _ => Err(AuthError::Unauthorized),
            }
        },
        _ => Err(AuthError::Unauthorized),
    }
}

/// The claims of `token` when it is signed with `secret` and still valid;
/// otherwise `Unauthorized`.
pub fn verify_token(token: &str, secret: &str) -> (r: Result<Claims, AuthError>)
    ensures
        r matches Err(e) ==> e == AuthError::Unauthorized,
{
    claims_of(decode_claims(token, secret))
}

/// The longest time, in seconds, that a `chrono::TimeDelta` holds.
pub const MAX_DELTA_SECS: i64 = 9_223_372_036_854_775;

/// The latest instant a `chrono::DateTime<Utc>` holds, in seconds since the
/// Unix epoch (the end of year 262142).
pub const MAX_TIMESTAMP: i64 = 8_210_266_876_799;

/// The earliest instant a `chrono::DateTime<Utc>` holds, in seconds since the
/// Unix epoch (the start of year -262143).
pub const MIN_TIMESTAMP: i64 = -8_334_601_228_800;

/// `secs` seconds as a `chrono::TimeDelta`, in whole seconds
/// (`TimeDelta::from_std`); `None` when that is longer than a `TimeDelta` holds.
#[verifier::external_body]
fn delta_secs(secs: u64) -> (r: Option<i64>)
    ensures
        r == (if secs <= MAX_DELTA_SECS { Some(secs as i64) } else { None::<i64> }),
{
    chrono::TimeDelta::from_std(std::time::Duration::from_secs(secs)).ok().map(|d| d.num_seconds())
}

/// The instant `delta` seconds after the instant `now` (seconds since the
/// epoch), as a timestamp (`DateTime::from_timestamp`, `checked_add_signed`,
/// `timestamp`); `None` when either is out of the range of `DateTime<Utc>`.
#[verifier::external_body]
fn timestamp_after(now: i64, delta: i64) -> (r: Option<i64>)
    requires
        0 <= delta <= MAX_DELTA_SECS,
    ensures
        r == (if MIN_TIMESTAMP <= now <= MAX_TIMESTAMP && now + delta <= MAX_TIMESTAMP {
            Some((now + delta) as i64)
        } else {
            None::<i64>
        }),
{
    let start = chrono::DateTime::from_timestamp(now, 0)?;
    start.checked_add_signed(chrono::TimeDelta::try_seconds(delta)?).map(|t| t.timestamp())
}

/// When a token issued at `now` (seconds since the epoch) for `expiry`
/// seconds expires: `now` plus the lifetime, where a lifetime too long for a
/// `TimeDelta` counts as none and a result out of `DateTime`'s range, or
/// before the epoch, as 0.
pub open spec fn expiry_of(now: int, expiry: int) -> int {
    let d = if expiry <= MAX_DELTA_SECS { expiry } else { 0 };
    if MIN_TIMESTAMP <= now <= MAX_TIMESTAMP && now + d <= MAX_TIMESTAMP && now + d > 0 {
        now + d
    } else {
        0
    }
}

/// The expiry claim of a token issued at `now` for `expiry` seconds.
pub fn expiry_stamp(now: i64, expiry: u64) -> (exp: u64)
    ensures
        exp == expiry_of(now as int, expiry as int),
{
    let d = match delta_secs(expiry) {
        Some(d) => d,
        None => 0,
    };
    let t = match timestamp_after(now, d) {
        Some(t) => t,
        None => 0,
    };
    if t < 0 {
        0
    } else {
        t as u64
    }
}

/// The character of a hexadecimal digit, in lower case.
pub open spec fn hex_char(v: int) -> char {
    if v < 10 {
        (48 + v) as char
    } else {
        (87 + v) as char
    }
}

/// The last `n` hexadecimal digits of `v`, most significant first.
pub open spec fn hex_digits(v: int, n: nat) -> Seq<char>
    decreases n,
{
    if n == 0 {
        seq![]
    } else {
        hex_digits(v / 16, (n - 1) as nat).push(hex_char(v % 16))
    }
}

/// A UUID written hyphenated in lower case: 8, 4, 4, 4 and 12 hexadecimal digits.
pub open spec fn uuid_text(bits: int) -> Seq<char> {
    let d = hex_digits(bits, 32);
    d.subrange(0, 8) + seq!['-'] + d.subrange(8, 12) + seq!['-'] + d.subrange(12, 16) + seq!['-']
        + d.subrange(16, 20) + seq!['-'] + d.subrange(20, 32)
}

/// The UUID with these bits, as `uuid::Uuid` displays it: hyphenated, in lower case.
#[verifier::external_body]
fn uuid_string(bits: u128) -> (r: String)
    ensures
        r@ == uuid_text(bits as int),
{
    uuid::Uuid::from_u128(bits).to_string()
}

/// The HS256 token that `jsonwebtoken::encode` makes, with the default header,
/// for the claims `sub`, `id` and `exp` under the key `secret`.
pub uninterp spec fn jwt_hs256_of(sub: Seq<char>, id: Seq<char>, exp: int, secret: Seq<char>) -> Seq<char>;

/// Signs the claims `sub`, `id` and `exp` (`jsonwebtoken::encode` with the
/// default header and an HS256 key made from `secret`, the claims as a JSON
/// object); the error text when signing fails.
#[verifier::external_body]
fn sign_claims(sub: &str, id: &str, exp: u64, secret: &str) -> (r: Result<String, String>)
    ensures
        r matches Ok(t) ==> t@ == jwt_hs256_of(sub@, id@, exp as int, secret@),
{
    let mut claims = serde_json::Map::new();
    claims.insert("sub".to_string(), serde_json::Value::String(sub.to_string()));
    claims.insert("id".to_string(), serde_json::Value::String(id.to_string()));
    claims.insert("exp".to_string(), serde_json::Value::from(exp));
    let key = jsonwebtoken::EncodingKey::from_secret(secret.as_bytes());
    jsonwebtoken::encode(&jsonwebtoken::Header::default(), &serde_json::Value::Object(claims), &key)
        .map_err(|e| e.to_string())
}

/// An access token for the user `user_id` with e-mail `email`, issued at `now`
/// (seconds since the epoch) for `expiry` seconds and signed with `secret`;
/// the error text when signing fails.
pub fn create_access_token(email: &str, user_id: u128, secret: &str, expiry: u64, now: i64) -> (r: Result<String, String>)
    ensures
        r matches Ok(t) ==> t@ == jwt_hs256_of(
            email@,
            uuid_text(user_id as int),
            expiry_of(now as int, expiry as int),
            secret@,
        ),
{
    let exp = expiry_stamp(now, expiry);
    let id = uuid_string(user_id);
    sign_claims(email, id.as_str(), exp, secret)
}

} // verus!
