use azurejay::tool_params::{body_params, correction_request, parse_json_body, profile_request, profile_update_call, profile_update_plan, save_correction_call, save_correction_plan, str_param, JsonValue, INVALID_IDS, INVALID_USER_ID};
use azurejay::tools::ToolContext;

fn s(x: &str) -> JsonValue {
    JsonValue::Str(x.to_string())
}

fn obj(members: Vec<(&str, JsonValue)>) -> JsonValue {
    JsonValue::Object(members.into_iter().map(|(k, v)| (k.to_string(), v)).collect())
}

#[test]
fn blank_body_has_no_params() {
    assert!(body_params("   ", Some(obj(vec![("a", s("b"))]))).is_empty());
    assert!(body_params("", None).is_empty());
}

#[test]
fn object_members_are_the_params() {
    let ps = body_params(" {\"name\":\"Ann\"} ", Some(obj(vec![("name", s("Ann")), ("age", JsonValue::Number("30".to_string()))])));
    assert_eq!(ps.len(), 2);
    assert_eq!(str_param(&ps, "name"), Some("Ann"));
    assert_eq!(str_param(&ps, "age"), None);
    assert_eq!(str_param(&ps, "location"), None);
}

#[test]
fn other_values_go_under_value() {
    let ps = body_params("\"hi\"", Some(s("hi")));
    assert_eq!(ps.len(), 1);
    assert_eq!(ps[0].0, "value");
    assert_eq!(str_param(&ps, "value"), Some("hi"));
}

#[test]
fn text_that_is_not_json_goes_under_raw() {
    let ps = body_params("  not json  ", None);
    assert_eq!(ps.len(), 1);
    assert_eq!(str_param(&ps, "_raw"), Some("not json"));
}

#[test]
fn profile_request_reads_strings_and_interests() {
    let ps = body_params(
        "{..}",
        Some(obj(vec![
            ("interests_to_add", JsonValue::Array(vec![s("chess"), JsonValue::Bool(true), s("jazz")])),
            ("location", s("Lyon")),
            ("name", JsonValue::Null),
        ])),
    );
    let r = profile_request(&ps);
    assert_eq!(r.name, None);
    assert_eq!(r.location.as_deref(), Some("Lyon"));
    assert_eq!(r.interests_to_add, vec!["chess".to_string(), "jazz".to_string()]);
}

#[test]
fn profile_request_falls_back_to_interests() {
    let ps = body_params("{..}", Some(obj(vec![("interests", JsonValue::Array(vec![s("golf")])), ("name", s("Bo"))])));
    let r = profile_request(&ps);
    assert_eq!(r.name.as_deref(), Some("Bo"));
    assert_eq!(r.interests_to_add, vec!["golf".to_string()]);
    let none = profile_request(&body_params("{..}", Some(obj(vec![("interests", s("golf"))]))));
    assert!(none.interests_to_add.is_empty());
}

#[test]
fn correction_request_names_missing_fields() {
    let ps = body_params(
        "{..}",
        Some(obj(vec![("corrected_text", s("I went")), ("explanation", s("")), ("original_text", s("I goed"))])),
    );
    assert_eq!(
        correction_request(&ps).err().as_deref(),
        Some("Cannot save correction, missing fields: explanation, improvement.")
    );
}

#[test]
fn correction_request_takes_all_four_fields() {
    let ps = body_params(
        "{..}",
        Some(obj(vec![
            ("corrected_text", s("I went")),
            ("explanation", s("past tense")),
            ("improvement", s("irregular verbs")),
            ("original_text", s("I goed")),
        ])),
    );
    let f = correction_request(&ps).unwrap();
    assert_eq!(f.original_text, "I goed");
    assert_eq!(f.corrected_text, "I went");
    assert_eq!(f.explanation, "past tense");
    assert_eq!(f.improvement, "irregular verbs");
}

const UID: &str = "550e8400-e29b-41d4-a716-446655440000";
const CID: &str = "6ba7b810-9dad-11d1-80b4-00c04fd430c8";

fn complete_correction() -> Vec<(String, JsonValue)> {
    body_params(
        "{..}",
        Some(obj(vec![
            ("corrected_text", s("I went")),
            ("explanation", s("past tense")),
            ("improvement", s("irregular verbs")),
            ("original_text", s("I goed")),
        ])),
    )
}

#[test]
fn save_correction_plan_reads_the_ids() {
    let (f, u, c) = save_correction_plan(&complete_correction(), &ToolContext::new(UID, CID)).unwrap();
    assert_eq!(f.original_text, "I goed");
    assert_eq!(u, 0x550e8400_e29b_41d4_a716_446655440000);
    assert_eq!(c, 0x6ba7b810_9dad_11d1_80b4_00c04fd430c8);
}

#[test]
fn save_correction_plan_refuses_invalid_ids() {
    let r = save_correction_plan(&complete_correction(), &ToolContext::new(UID, "not-a-uuid"));
    assert_eq!(r.err().as_deref(), Some("Failed to save correction: invalid ids."));
    assert_eq!(INVALID_IDS, "Failed to save correction: invalid ids.");
}

#[test]
fn save_correction_plan_names_missing_fields_before_ids() {
    let r = save_correction_plan(&body_params("", None), &ToolContext::new("x", "y"));
    assert_eq!(
        r.err().as_deref(),
        Some("Cannot save correction, missing fields: original_text, corrected_text, explanation, improvement.")
    );
}

#[test]
fn profile_update_plan_reads_the_user_id() {
    let ps = body_params("{..}", Some(obj(vec![("name", s("Ann"))])));
    let (req, u) = profile_update_plan(&ps, &ToolContext::new(UID, "whatever")).unwrap();
    assert_eq!(req.name.as_deref(), Some("Ann"));
    assert_eq!(u, 0x550e8400_e29b_41d4_a716_446655440000);
    let r = profile_update_plan(&ps, &ToolContext::new("nope", "whatever"));
    assert_eq!(r.err().as_deref(), Some("Failed to update profile: invalid user id."));
    assert_eq!(INVALID_USER_ID, "Failed to update profile: invalid user id.");
}

#[test]
fn ids_in_every_uuid_form() {
    let ps = body_params("{..}", Some(obj(vec![("name", s("Ann"))])));
    let bits = 0x550e8400_e29b_41d4_a716_446655440000u128;
    for form in [
        "550E8400E29B41D4A716446655440000",
        "{550e8400-e29b-41d4-a716-446655440000}",
        "URN:uuid:550e8400-e29b-41d4-a716-446655440000",
    ] {
        assert_eq!(profile_update_plan(&ps, &ToolContext::new(form, "")).unwrap().1, bits);
    }
    for bad in ["550e8400-e29b-41d4-a716-44665544000g", "550e8400e29b-41d4-a716-446655440000-", "[550e8400-e29b-41d4-a716-446655440000]"] {
        assert!(profile_update_plan(&ps, &ToolContext::new(bad, "")).is_err());
    }
}

#[test]
fn json_bodies_are_parsed() {
    let ps = parse_json_body("  {\"name\": \"Ann\", \"interests\": [\"chess\", 3, \"jazz\"]} ");
    assert_eq!(str_param(&ps, "name"), Some("Ann"));
    assert_eq!(profile_request(&ps).interests_to_add, vec!["chess".to_string(), "jazz".to_string()]);
    let single = parse_json_body("\"hello\"");
    assert_eq!(str_param(&single, "value"), Some("hello"));
    let raw = parse_json_body(" not json ");
    assert_eq!(str_param(&raw, "_raw"), Some("not json"));
    assert!(parse_json_body("   ").is_empty());
}

#[test]
fn tool_calls_from_bodies() {
    let body = "{\"original_text\":\"I goed\",\"corrected_text\":\"I went\",\"explanation\":\"past\",\"improvement\":\"verbs\"}";
    let (f, u, _) = save_correction_call(body, &ToolContext::new(UID, CID)).unwrap();
    assert_eq!(f.corrected_text, "I went");
    assert_eq!(u, 0x550e8400_e29b_41d4_a716_446655440000);
    assert_eq!(
        save_correction_call("{}", &ToolContext::new(UID, CID)).err().as_deref(),
        Some("Cannot save correction, missing fields: original_text, corrected_text, explanation, improvement.")
    );
    let (req, _) = profile_update_call("{\"location\":\"Lyon\"}", &ToolContext::new(UID, "")).unwrap();
    assert_eq!(req.location.as_deref(), Some("Lyon"));
    assert_eq!(
        profile_update_call("{}", &ToolContext::new("x", "")).err().as_deref(),
        Some("Failed to update profile: invalid user id.")
    );
}
