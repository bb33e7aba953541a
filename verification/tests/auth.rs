use azurejay::auth::{bearer_token, claims_user_id, validate_new_password, validate_registration, Claims, LoginForm, RegisterRequest, TokenResponse};

fn req(email: &str, first: &str, last: &str, password: &str) -> RegisterRequest {
    RegisterRequest {
        email: email.to_string(),
        first_name: first.to_string(),
        last_name: last.to_string(),
        password: password.to_string(),
    }
}

#[test]
fn registration_checks_in_order() {
    assert_eq!(validate_registration(&req("a@b", "Ann", "Lee", "password1")), Ok(()));
    assert_eq!(
        validate_registration(&req("ab", "Ann", "Lee", "password1")).unwrap_err(),
        "a valid email is required"
    );
    assert_eq!(
        validate_registration(&req("@b", "", "", "x")).unwrap_err(),
        "a valid email is required"
    );
    assert_eq!(
        validate_registration(&req("a@b", "Ann", "Lee", "short")).unwrap_err(),
        "password must be at least 8 characters"
    );
    assert_eq!(
        validate_registration(&req("a@b", "  ", "Lee", "password1")).unwrap_err(),
        "first and last name are required"
    );
}

#[test]
fn lengths_are_in_bytes() {
    // "é@" is 3 bytes although it is 2 characters.
    assert_eq!(validate_registration(&req("é@", "A", "B", "ééé")), Err("password must be at least 8 characters".to_string()));
    assert_eq!(validate_registration(&req("é@", "A", "B", "éééé")), Ok(()));
    assert!(validate_new_password("1234567").is_err());
    assert_eq!(validate_new_password("1234567").unwrap_err(), "new password must be at least 8 characters");
    assert!(validate_new_password("12345678").is_ok());
}

#[test]
fn bearer_tokens() {
    assert_eq!(bearer_token("Bearer abc").as_deref(), Some("abc"));
    assert_eq!(bearer_token("Bearer   abc  ").as_deref(), Some("abc"));
    assert_eq!(bearer_token("Bearer    "), None);
    assert_eq!(bearer_token("bearer abc"), None);
    assert_eq!(bearer_token("Basic abc"), None);
    assert_eq!(bearer_token("Bearer"), None);
}

#[test]
fn forms_and_claims() {
    let t = TokenResponse::bearer("tok".to_string());
    assert_eq!(t.access_token, "tok");
    assert_eq!(t.token_type, "bearer");
    let c = Claims { sub: "a@b".to_string(), id: "1".to_string(), exp: 10 };
    assert_eq!(c.exp, 10);
    let f = LoginForm { username: "a@b".to_string(), password: "p".to_string() };
    assert_eq!(f.username, "a@b");
}

#[test]
fn token_claims_name_a_uuid_user() {
    let c = Claims { sub: "a@b.c".to_string(), id: "550e8400-e29b-41d4-a716-446655440000".to_string(), exp: 0 };
    assert_eq!(claims_user_id(&c), Some(0x550e8400_e29b_41d4_a716_446655440000));
    let bad = Claims { sub: "a@b.c".to_string(), id: "42".to_string(), exp: 0 };
    assert_eq!(claims_user_id(&bad), None);
}

use azurejay::auth::{
    claims_of, create_access_token, expiry_stamp, verify_token, AuthError, MAX_DELTA_SECS,
    MAX_TIMESTAMP, MIN_TIMESTAMP,
};
use azurejay::tool_params::JsonValue;

fn now_secs() -> i64 {
    std::time::SystemTime::now()
        .duration_since(std::time::UNIX_EPOCH)
        .unwrap()
        .as_secs() as i64
}

#[test]
fn expiry_adds_the_lifetime() {
    assert_eq!(expiry_stamp(100, 60), 160);
    assert_eq!(expiry_stamp(1_700_000_000, 1800), 1_700_001_800);
    assert_eq!(expiry_stamp(0, 0), 0);
}

#[test]
fn expiry_edges_of_the_calendar() {
    assert_eq!(expiry_stamp(MAX_TIMESTAMP - 10, 10), MAX_TIMESTAMP as u64);
    assert_eq!(expiry_stamp(MAX_TIMESTAMP - 10, 11), 0);
    assert_eq!(expiry_stamp(MAX_TIMESTAMP + 1, 0), 0);
    assert_eq!(expiry_stamp(MIN_TIMESTAMP, (-MIN_TIMESTAMP) as u64 + 5), 5);
    assert_eq!(expiry_stamp(MIN_TIMESTAMP - 1, (-MIN_TIMESTAMP) as u64 + 6), 0);
}

#[test]
fn expiry_of_an_overlong_lifetime_is_now() {
    assert_eq!(expiry_stamp(500, MAX_DELTA_SECS as u64 + 1), 500);
    assert_eq!(expiry_stamp(500, u64::MAX), 500);
    assert_eq!(expiry_stamp(0, MAX_DELTA_SECS as u64), 0);
}

#[test]
fn expiry_before_the_epoch_is_zero() {
    assert_eq!(expiry_stamp(-100, 50), 0);
    assert_eq!(expiry_stamp(-100, 100), 0);
    assert_eq!(expiry_stamp(-100, 101), 1);
}

#[test]
fn a_signed_token_verifies_with_its_secret() {
    let now = now_secs();
    let user = 0x0123_4567_89ab_cdef_0123_4567_89ab_cdefu128;
    let token = create_access_token("ann@example.com", user, "s3cret", 3600, now).unwrap();
    assert_eq!(token.split('.').count(), 3);
    let claims = verify_token(&token, "s3cret").unwrap();
    assert_eq!(claims.sub, "ann@example.com");
    assert_eq!(claims.id, "01234567-89ab-cdef-0123-456789abcdef");
    assert_eq!(claims.exp, (now + 3600) as usize);
    assert_eq!(claims_user_id(&claims), Some(user));
}

#[test]
fn tokens_are_refused_on_a_wrong_secret_or_when_expired() {
    let now = now_secs();
    let token = create_access_token("ann@example.com", 7, "s3cret", 3600, now).unwrap();
    assert_eq!(verify_token(&token, "other").unwrap_err(), AuthError::Unauthorized);
    let old = create_access_token("ann@example.com", 7, "s3cret", 60, 1_000_000).unwrap();
    assert_eq!(verify_token(&old, "s3cret").unwrap_err(), AuthError::Unauthorized);
    assert_eq!(verify_token("not a token", "s3cret").unwrap_err(), AuthError::Unauthorized);
}

#[test]
fn the_same_claims_sign_to_the_same_token() {
    let a = create_access_token("bo@example.com", 42, "k", 100, 1_900_000_000).unwrap();
    let b = create_access_token("bo@example.com", 42, "k", 100, 1_900_000_000).unwrap();
    assert_eq!(a, b);
    let c = create_access_token("bo@example.com", 42, "k", 101, 1_900_000_000).unwrap();
    assert_ne!(a, c);
}

fn obj(members: Vec<(&str, JsonValue)>) -> JsonValue {
    JsonValue::Object(members.into_iter().map(|(k, v)| (k.to_string(), v)).collect())
}

#[test]
fn claims_are_read_from_a_decoded_object() {
    let v = obj(vec![
        ("sub", JsonValue::Str("a@b".to_string())),
        ("id", JsonValue::Str("x".to_string())),
        ("exp", JsonValue::Number("1700000000".to_string())),
        ("extra", JsonValue::Bool(true)),
    ]);
    let c = claims_of(Ok(v)).unwrap();
    assert_eq!(c.sub, "a@b");
    assert_eq!(c.id, "x");
    assert_eq!(c.exp, 1_700_000_000);
}

#[test]
fn claims_missing_or_mistyped_are_refused() {
    let missing = obj(vec![
        ("sub", JsonValue::Str("a@b".to_string())),
        ("exp", JsonValue::Number("5".to_string())),
    ]);
    assert_eq!(claims_of(Ok(missing)).unwrap_err(), AuthError::Unauthorized);
    let float = obj(vec![
        ("sub", JsonValue::Str("a@b".to_string())),
        ("id", JsonValue::Str("x".to_string())),
        ("exp", JsonValue::Number("5.0".to_string())),
    ]);
    assert_eq!(claims_of(Ok(float)).unwrap_err(), AuthError::Unauthorized);
    let negative = obj(vec![
        ("sub", JsonValue::Str("a@b".to_string())),
        ("id", JsonValue::Str("x".to_string())),
        ("exp", JsonValue::Number("-5".to_string())),
    ]);
    assert_eq!(claims_of(Ok(negative)).unwrap_err(), AuthError::Unauthorized);
    let id_number = obj(vec![
        ("sub", JsonValue::Str("a@b".to_string())),
        ("id", JsonValue::Number("3".to_string())),
        ("exp", JsonValue::Number("5".to_string())),
    ]);
    assert_eq!(claims_of(Ok(id_number)).unwrap_err(), AuthError::Unauthorized);
    assert_eq!(claims_of(Ok(JsonValue::Null)).unwrap_err(), AuthError::Unauthorized);
    assert_eq!(claims_of(Err(())).unwrap_err(), AuthError::Unauthorized);
}
