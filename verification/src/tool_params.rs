//! The parameters of a tool call, read from the JSON body the model wrote.
use vstd::prelude::*;

use crate::text::{push_str, str_eq, trim_seq, trim_str};
use crate::tool_agents::{
    any_missing, correction_fields, correction_result, fields_are, missing_message, str_opt_view,
    CorrectionFields,
};
use crate::tools::{parse_uuid, uuid_bits, ToolContext};

verus! {

/// A JSON value.
#[derive(Debug)]
pub enum JsonValue {
    Null,
    Bool(bool),
    /// A number, as the text the parser gives it.
    Number(String),
    Str(String),
    Array(Vec<JsonValue>),
    /// The members of an object, each name once.
    Object(Vec<(String, JsonValue)>),
}

/// A JSON value in mathematical form.
pub enum JsonView {
    Null,
    Bool(bool),
    Number(Seq<char>),
    Str(Seq<char>),
    Array(Seq<JsonView>),
    Object(Seq<(Seq<char>, JsonView)>),
}

/// The mathematical form of a JSON value.
pub open spec fn json_view(v: JsonValue) -> JsonView
    decreases v,
{
    match v {
        JsonValue::Null => JsonView::Null,
        JsonValue::Bool(b) => JsonView::Bool(b),
        JsonValue::Number(n) => JsonView::Number(n@),
        JsonValue::Str(s) => JsonView::Str(s@),
        JsonValue::Array(items) => JsonView::Array(
            Seq::new(items@.len(), |i: int| if 0 <= i < items@.len() { json_view(items@[i]) } else { JsonView::Null }),
        ),
        JsonValue::Object(ms) => JsonView::Object(
            Seq::new(ms@.len(), |i: int| if 0 <= i < ms@.len() { (ms@[i].0@, json_view(ms@[i].1)) } else { (seq![], JsonView::Null) }),
        ),
    }
}

impl View for JsonValue {
    type V = JsonView;

    open spec fn view(&self) -> JsonView {
        json_view(*self)
    }
}

/// The mathematical form of an optional JSON value.
pub open spec fn json_opt_view(v: Option<JsonValue>) -> Option<JsonView> {
    match v {
        Some(x) => Some(json_view(x)),
        None => None,
    }
}

/// The JSON value that `text` holds, as `serde_json::from_str` reads it into
/// a `serde_json::Value`; `None` when `text` is not JSON.
pub uninterp spec fn json_of(text: Seq<char>) -> Option<JsonView>;

/// `serde_json::Value`, the parser's form of a JSON value.
#[verifier::external_type_specification]
#[verifier::external_body]
pub struct ExSerdeJsonValue(serde_json::Value);

/// The JSON value that `text` holds (`serde_json::from_str::<serde_json::Value>`),
/// converted variant by variant; `None` when `text` is not JSON.
#[verifier::external_body]
fn parse_json(text: &str) -> (r: Option<JsonValue>)
    ensures
        json_opt_view(r) == json_of(text@),
{
    serde_json::from_str::<serde_json::Value>(text).ok().map(from_serde_value)
}

/// A `serde_json::Value` as a `JsonValue`, one variant for another, its
/// contents moved over (the number as the text `serde_json` writes for it).
#[verifier::external_body]
pub(crate) fn from_serde_value(v: serde_json::Value) -> JsonValue {
    match v {
        serde_json::Value::Null => JsonValue::Null,
        serde_json::Value::Bool(b) => JsonValue::Bool(b),
        serde_json::Value::Number(n) => JsonValue::Number(n.to_string()),
        serde_json::Value::String(s) => JsonValue::Str(s),
        serde_json::Value::Array(a) => JsonValue::Array(a.into_iter().map(from_serde_value).collect()),
        serde_json::Value::Object(m) => JsonValue::Object(m.into_iter().map(|(k, x)| (k, from_serde_value(x))).collect()),
    }
}

/// The parameters of a tool call whose body is `body`, given the JSON value of
/// its trimmed text (`None` when that is not JSON): none for a blank body; the
/// members of an object; any other value under the name `value`; and a body
/// that is not JSON, trimmed, as a string under `_raw`.
pub open spec fn body_params_of(body: Seq<char>, parsed: Option<JsonView>) -> Seq<(Seq<char>, JsonView)> {
    if trim_seq(body).len() == 0 {
        seq![]
    } else {
        match parsed {
            Some(JsonView::Object(members)) => members,
            Some(v) => seq![("value"@, v)],
            None => seq![("_raw"@, JsonView::Str(trim_seq(body)))],
        }
    }
}

pub(crate) proof fn lemma_object_view(members: Vec<(String, JsonValue)>)
    ensures
        json_view(JsonValue::Object(members)) == JsonView::Object(params_view(members@)),
{
    let jv = json_view(JsonValue::Object(members));
    let h = jv->Object_0;
    assert(h =~= params_view(members@));
}

/// The parameters of a tool call whose body is `body`, given what the JSON
/// parser made of the trimmed body (`None` when it is not JSON): none for a
/// blank body; the members of an object; any other value under the name
/// `value`; and a body that is not JSON, trimmed, as a string under `_raw`.
pub fn body_params(body: &str, parsed: Option<JsonValue>) -> (r: Vec<(String, JsonValue)>)
    ensures
        trim_seq(body@).len() == 0 ==> r@.len() == 0,
        trim_seq(body@).len() > 0 ==> match parsed {
            Some(JsonValue::Object(members)) => r@ == members@,
            Some(v) => r@.len() == 1 && r@[0].0@ == "value"@ && r@[0].1 == v,
            None => r@.len() == 1 && r@[0].0@ == "_raw"@ && (r@[0].1 matches JsonValue::Str(s) && s@
                == trim_seq(body@)),
        },
        params_view(r@) == body_params_of(body@, json_opt_view(parsed)),
{
    let t = trim_str(body);
    if t.as_str().is_empty() {
        return Vec::new();
    }
    let mut r: Vec<(String, JsonValue)> = Vec::new();
    match parsed {
        Some(JsonValue::Object(members)) => {
            proof {
                lemma_object_view(members);
            }
            return members;
        },
        Some(v) => {
            let mut k = String::new();
            push_str(&mut k, "value");
            r.push((k, v));
        },
        None => {
            let mut k = String::new();
            push_str(&mut k, "_raw");
            r.push((k, JsonValue::Str(t)));
        },
    }
    assert(params_view(r@) =~= body_params_of(body@, json_opt_view(parsed)));
    r
}

/// The parameters of a tool call whose body is `body`: those that the JSON
/// value of its trimmed text gives, as `body_params_of` reads it.
pub fn parse_json_body(body: &str) -> (r: Vec<(String, JsonValue)>)
    ensures
        params_view(r@) == body_params_of(body@, json_of(trim_seq(body@))),
{
    let t = trim_str(body);
    let parsed = parse_json(t.as_str());
    body_params(body, parsed)
}

/// The mathematical form of JSON values.
pub open spec fn item_views(items: Seq<JsonValue>) -> Seq<JsonView> {
    Seq::new(items.len(), |i: int| json_view(items[i]))
}

proof fn lemma_array_view(items: Vec<JsonValue>)
    ensures
        json_view(JsonValue::Array(items)) == JsonView::Array(item_views(items@)),
{
    let jv = json_view(JsonValue::Array(items));
    let h = jv->Array_0;
    assert(h =~= item_views(items@));
}

/// The mathematical form of parameters: (name, value) pairs.
pub open spec fn params_view(ps: Seq<(String, JsonValue)>) -> Seq<(Seq<char>, JsonView)> {
    Seq::new(ps.len(), |i: int| (ps[i].0@, json_view(ps[i].1)))
}

/// The value of the first parameter named `key`.
pub open spec fn param(ps: Seq<(Seq<char>, JsonView)>, key: Seq<char>) -> Option<JsonView>
    decreases ps.len(),
{
    if ps.len() == 0 {
        None
    } else if ps[0].0 == key {
        Some(ps[0].1)
    } else {
        param(ps.drop_first(), key)
    }
}

/// The text of the parameter named `key`, when it is a JSON string.
pub open spec fn str_param_of(ps: Seq<(Seq<char>, JsonView)>, key: Seq<char>) -> Option<Seq<char>> {
    match param(ps, key) {
        Some(JsonView::Str(s)) => Some(s),
        _ => None,
    }
}

/// The index of the first parameter named `key`.
pub(crate) fn find_param(ps: &Vec<(String, JsonValue)>, key: &str) -> (r: Option<usize>)
    ensures
        match param(params_view(ps@), key@) {
            Some(v) => r matches Some(i) && i < ps@.len() && json_view(ps@[i as int].1) == v,
            None => r is None,
        },
{
    let ghost pv = params_view(ps@);
    let mut i: usize = 0;
    assert(pv.skip(0) =~= pv);
    while i < ps.len()
        invariant
            i <= ps@.len(),
            pv == params_view(ps@),
            param(pv, key@) == param(pv.skip(i as int), key@),
        decreases ps@.len() - i,
    {
        let ghost rest = pv.skip(i as int);
        assert(rest[0] == (ps@[i as int].0@, json_view(ps@[i as int].1)));
        assert(rest.drop_first() =~= pv.skip(i + 1));
        if str_eq(ps[i].0.as_str(), key) {
            return Some(i);
        }
        i = i + 1;
    }
    None
}

/// The text of the parameter named `key`, when it is a JSON string.
pub fn str_param<'a>(ps: &'a Vec<(String, JsonValue)>, key: &str) -> (r: Option<&'a str>)
    ensures
        str_opt_view(r) == str_param_of(params_view(ps@), key@),
{
    match find_param(ps, key) {
        Some(i) => match &ps[i].1 {
            JsonValue::Str(s) => Some(s.as_str()),
            _ => None,
        },
        None => None,
    }
}

/// The strings among `items`, in order.
pub open spec fn strings_in(items: Seq<JsonView>) -> Seq<Seq<char>>
    decreases items.len(),
{
    if items.len() == 0 {
        seq![]
    } else {
        match items.last() {
            JsonView::Str(s) => strings_in(items.drop_last()).push(s),
            _ => strings_in(items.drop_last()),
        }
    }
}

/// The interests a profile update adds: the strings of the array
/// `interests_to_add`, or, when that parameter is absent, of `interests`.
pub open spec fn interests_of(ps: Seq<(Seq<char>, JsonView)>) -> Seq<Seq<char>> {
    let v = match param(ps, "interests_to_add"@) {
        Some(v) => Some(v),
        None => param(ps, "interests"@),
    };
    match v {
        Some(JsonView::Array(items)) => strings_in(items),
        _ => seq![],
    }
}

/// The character sequences of strings.
pub open spec fn string_views(v: Seq<String>) -> Seq<Seq<char>> {
    v.map_values(|s: String| s@)
}

/// The strings among `items`, in order.
fn strings_of(items: &Vec<JsonValue>) -> (r: Vec<String>)
    ensures
        string_views(r@) == strings_in(item_views(items@)),
{
    let ghost iv = item_views(items@);
    let mut r: Vec<String> = Vec::new();
    let mut i: usize = 0;
    while i < items.len()
        invariant
            i <= items@.len(),
            iv == item_views(items@),
            string_views(r@) == strings_in(iv.take(i as int)),
        decreases items@.len() - i,
    {
        assert(iv.take(i + 1).drop_last() =~= iv.take(i as int));
        assert(iv.take(i + 1).last() == json_view(items@[i as int]));
        match &items[i] {
            JsonValue::Str(s) => {
                let mut c = String::new();
                push_str(&mut c, s.as_str());
                let ghost before = r@;
                r.push(c);
                assert(string_views(r@) =~= string_views(before).push(s@));
            },
            _ => {},
        }
        i = i + 1;
    }
    assert(iv.take(i as int) =~= iv);
    r
}

/// What a profile update asks for.
#[derive(Debug, Clone)]
pub struct ProfileRequest {
    pub name: Option<String>,
    pub location: Option<String>,
    pub interests_to_add: Vec<String>,
}

/// The character sequence of an optional string.
pub open spec fn opt_string_view(v: Option<String>) -> Option<Seq<char>> {
    match v {
        Some(s) => Some(s@),
        None => None,
    }
}

fn owned(v: Option<&str>) -> (r: Option<String>)
    ensures
        opt_string_view(r) == str_opt_view(v),
{
    match v {
        Some(s) => {
            let mut c = String::new();
            push_str(&mut c, s);
            Some(c)
        },
        None => None,
    }
}

/// The profile update that the parameters ask for: the strings `name` and
/// `location`, and the interests to add.
pub fn profile_request(ps: &Vec<(String, JsonValue)>) -> (r: ProfileRequest)
    ensures
        opt_string_view(r.name) == str_param_of(params_view(ps@), "name"@),
        opt_string_view(r.location) == str_param_of(params_view(ps@), "location"@),
        string_views(r.interests_to_add@) == interests_of(params_view(ps@)),
{
    let name = owned(str_param(ps, "name"));
    let location = owned(str_param(ps, "location"));
    let found = match find_param(ps, "interests_to_add") {
        Some(i) => Some(i),
        None => find_param(ps, "interests"),
    };
    let interests_to_add = match found {
        Some(i) => match &ps[i].1 {
            JsonValue::Array(items) => {
                proof {
                    lemma_array_view(*items);
                    assert(ps@[i as int].1 == JsonValue::Array(*items));
                }
                strings_of(items)
            },
            _ => Vec::new(),
        },
        None => Vec::new(),
    };
    ProfileRequest { name, location, interests_to_add }
}

/// The correction that the parameters ask to save: the strings
/// `original_text`, `corrected_text`, `explanation` and `improvement`, or the
/// observation that names those missing.
pub fn correction_request(ps: &Vec<(String, JsonValue)>) -> (r: Result<CorrectionFields, String>)
    ensures
        correction_result(
            seq![
                str_param_of(params_view(ps@), "original_text"@),
                str_param_of(params_view(ps@), "corrected_text"@),
                str_param_of(params_view(ps@), "explanation"@),
                str_param_of(params_view(ps@), "improvement"@),
            ],
            r,
        ),
{
    correction_fields(
        str_param(ps, "original_text"),
        str_param(ps, "corrected_text"),
        str_param(ps, "explanation"),
        str_param(ps, "improvement"),
    )
}

/// The observation when a correction cannot be saved for want of valid ids.
pub const INVALID_IDS: &'static str = "Failed to save correction: invalid ids.";

/// The observation when a profile cannot be updated for want of a valid user id.
pub const INVALID_USER_ID: &'static str = "Failed to update profile: invalid user id.";

/// The field values of the correction that the parameters ask to save.
pub open spec fn correction_values(ps: Seq<(Seq<char>, JsonView)>) -> Seq<Option<Seq<char>>> {
    seq![
        str_param_of(ps, "original_text"@),
        str_param_of(ps, "corrected_text"@),
        str_param_of(ps, "explanation"@),
        str_param_of(ps, "improvement"@),
    ]
}

/// What saving a correction comes to, given the fields asked for and the
/// user and conversation ids read as UUIDs: the observation naming missing
/// fields first; else, when an id is not a UUID, the invalid-ids observation;
/// else the fields and the two ids.
pub fn correction_plan_of(fields: Result<CorrectionFields, String>, user: Option<u128>, conversation: Option<u128>) -> (r: Result<(CorrectionFields, u128, u128), String>)
    ensures
        fields matches Err(m) ==> (r matches Err(e) && e@ == m@),
        fields matches Ok(f) ==> match (user, conversation) {
            (Some(u), Some(c)) => r matches Ok(t) && t.0 == f && t.1 == u && t.2 == c,
            _ => r matches Err(e) && e@ == INVALID_IDS@,
        },
{
    match fields {
        Err(m) => Err(m),
        Ok(f) => match (user, conversation) {
            (Some(u), Some(c)) => Ok((f, u, c)),
            _ => {
                let mut e = String::new();
                push_str(&mut e, INVALID_IDS);
                Err(e)
            },
        },
    }
}

/// What a call of the correction-saving tool comes to: the observation that
/// names missing fields; else, when the user or conversation id of the call is
/// not a UUID, the invalid-ids observation; else the fields and the two ids.
pub fn save_correction_plan(ps: &Vec<(String, JsonValue)>, ctx: &ToolContext) -> (r: Result<(CorrectionFields, u128, u128), String>)
    ensures
        any_missing(correction_values(params_view(ps@))) ==> (r matches Err(e) && e@ == missing_message(
            correction_values(params_view(ps@)),
        )),
        !any_missing(correction_values(params_view(ps@))) ==> match (uuid_bits(ctx.user_id@), uuid_bits(ctx.conversation_id@)) {
            (Some(u), Some(c)) => r matches Ok(t) && fields_are(t.0, correction_values(params_view(ps@))) && t.1 == u && t.2 == c,
            _ => r matches Err(e) && e@ == INVALID_IDS@,
        },
{
    let fields = correction_request(ps);
    if fields.is_err() {
        return correction_plan_of(fields, None, None);
    }
    let user = parse_uuid(ctx.user_id.as_str());
    let conversation = parse_uuid(ctx.conversation_id.as_str());
    correction_plan_of(fields, user, conversation)
}

/// What a profile update comes to, given the request and the user id read as a
/// UUID: the invalid-user-id observation when it is not one, else both.
pub fn profile_plan_of(request: ProfileRequest, user: Option<u128>) -> (r: Result<(ProfileRequest, u128), String>)
    ensures
        match user {
            Some(u) => r matches Ok(t) && t.0 == request && t.1 == u,
            None => r matches Err(e) && e@ == INVALID_USER_ID@,
        },
{
    match user {
        Some(u) => Ok((request, u)),
        None => {
            let mut e = String::new();
            push_str(&mut e, INVALID_USER_ID);
            Err(e)
        },
    }
}

/// What a call of the profile-update tool comes to: the update its parameters
/// ask for and the user's id, or, when the user id of the call is not a UUID,
/// the invalid-user-id observation.
pub fn profile_update_plan(ps: &Vec<(String, JsonValue)>, ctx: &ToolContext) -> (r: Result<(ProfileRequest, u128), String>)
    ensures
        match uuid_bits(ctx.user_id@) {
            Some(u) => r matches Ok(t) && t.1 == u && opt_string_view(t.0.name) == str_param_of(params_view(ps@), "name"@)
                && opt_string_view(t.0.location) == str_param_of(params_view(ps@), "location"@)
                && string_views(t.0.interests_to_add@) == interests_of(params_view(ps@)),
            None => r matches Err(e) && e@ == INVALID_USER_ID@,
        },
{
    let request = profile_request(ps);
    profile_plan_of(request, parse_uuid(ctx.user_id.as_str()))
}

/// What a call of the correction-saving tool with body `body` comes to: the
/// plan of `save_correction_plan` for the parameters of the body.
pub fn save_correction_call(body: &str, ctx: &ToolContext) -> (r: Result<(CorrectionFields, u128, u128), String>)
    ensures
        ({
            let ps = body_params_of(body@, json_of(trim_seq(body@)));
            &&& any_missing(correction_values(ps)) ==> (r matches Err(e) && e@ == missing_message(correction_values(ps)))
            &&& !any_missing(correction_values(ps)) ==> match (uuid_bits(ctx.user_id@), uuid_bits(ctx.conversation_id@)) {
                (Some(u), Some(c)) => r matches Ok(t) && fields_are(t.0, correction_values(ps)) && t.1 == u && t.2 == c,
                _ => r matches Err(e) && e@ == INVALID_IDS@,
            }
        }),
{
    let ps = parse_json_body(body);
    save_correction_plan(&ps, ctx)
}

/// What a call of the profile-update tool with body `body` comes to: the plan
/// of `profile_update_plan` for the parameters of the body.
pub fn profile_update_call(body: &str, ctx: &ToolContext) -> (r: Result<(ProfileRequest, u128), String>)
    ensures
        ({
            let ps = body_params_of(body@, json_of(trim_seq(body@)));
            match uuid_bits(ctx.user_id@) {
                Some(u) => r matches Ok(t) && t.1 == u && opt_string_view(t.0.name) == str_param_of(ps, "name"@)
                    && opt_string_view(t.0.location) == str_param_of(ps, "location"@)
                    && string_views(t.0.interests_to_add@) == interests_of(ps),
                None => r matches Err(e) && e@ == INVALID_USER_ID@,
            }
        }),
{
    let ps = parse_json_body(body);
    profile_update_plan(&ps, ctx)
}

} // verus!
