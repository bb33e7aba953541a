use azurejay::store::{correction_key, profile_key};

#[test]
fn profile_keys() {
    assert_eq!(profile_key("u-1"), "profile:u-1");
}

#[test]
fn correction_keys() {
    assert_eq!(correction_key("u-1", "c-2", "e-3"), "corrections:u-1:c-2:e-3");
}
