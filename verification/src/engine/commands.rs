//! Addresses, headers and replies of the engine's HTTP interface.

use crate::text::{chars_of, decimal_string, decimal_text, strip_trailing_char, trim_end_char};
use vstd::prelude::*;

verus! {

/// The base address without the slashes at its end.
pub open spec fn trimmed_url(base_url: Seq<char>) -> Seq<char> {
    strip_trailing_char(base_url, '/')
}

/// Removes every slash from the end of a base address.
pub fn trim_url(base_url: &str) -> (url: String)
    ensures
        url@ == trimmed_url(base_url@),
{
    let chars = chars_of(base_url);
    let kept = trim_end_char(chars.as_slice(), '/');
    String::from_str(base_url.substring_char(0, kept.len()))
}

/// The address of `path` below the base address.
pub fn endpoint_url(base_url: &str, path: &str) -> (url: String)
    ensures
        url@ == trimmed_url(base_url@) + path@,
{
    let mut url = trim_url(base_url);
    url.append(path);
    url
}

/// The value of the authorization header for `api_key`; none for an empty key.
pub open spec fn bearer_of(api_key: Seq<char>) -> Option<Seq<char>> {
    if api_key.len() == 0 {
        None
    } else {
        Some("Bearer "@ + api_key)
    }
}

/// The value of the authorization header, where the key is not empty.
pub fn bearer_token(api_key: &str) -> (token: Option<String>)
    ensures
        match bearer_of(api_key@) {
            Some(t) => token is Some && token.unwrap()@ == t,
            None => token is None,
        },
{
    if api_key.is_empty() {
        None
    } else {
        let mut token = String::from_str("Bearer ");
        token.append(api_key);
        Some(token)
    }
}

/// Whether `text` can be the value of a header: it holds no control
/// character of ASCII but the tab.
pub open spec fn is_header_text(text: Seq<char>) -> bool {
    forall|i: int|
        0 <= i < text.len() ==> {
            let code = (#[trigger] text[i]) as u32;
            code >= 32 && code != 127 || code == 9
        }
}

/// Asks `reqwest` whether `text` can be the value of a header, and hands
/// back the words of its refusal: `HeaderValue::from_str`. That function
/// refuses exactly the strings with a byte below 32 other than the tab, or
/// the byte 127, and its error reads as stated; the contract is believed,
/// not proved.
#[verifier::external_body]
fn header_value_refusal(text: &str) -> (refusal: Option<String>)
    ensures
        refusal is None <==> is_header_text(text@),
        refusal is Some ==> refusal.unwrap()@ == "failed to parse header value"@,
{
    match reqwest::header::HeaderValue::from_str(text) {
        Ok(_) => None,
        Err(e) => Some(e.to_string()),
    }
}

/// The pairs of name and value that a request to the engine carries for
/// `api_key`: the content type, and the authorization where the key is not
/// empty.
pub open spec fn header_pairs(api_key: Seq<char>) -> Seq<(Seq<char>, Seq<char>)> {
    if api_key.len() == 0 {
        seq![("content-type"@, "application/json"@)]
    } else {
        seq![("content-type"@, "application/json"@), ("authorization"@, "Bearer "@ + api_key)]
    }
}

/// Whether the headers for `api_key` can be sent: the key is empty, or the
/// authorization made of it can be the value of a header.
pub open spec fn key_is_sendable(api_key: Seq<char>) -> bool {
    api_key.len() == 0 || is_header_text("Bearer "@ + api_key)
}

/// The headers of a request to the engine, as pairs of name and value. A key
/// that no header can hold is refused.
pub fn engine_headers(api_key: &str) -> (r: Result<Vec<(String, String)>, String>)
    ensures
        r is Ok <==> key_is_sendable(api_key@),
        r is Ok ==> r.unwrap()@.len() == header_pairs(api_key@).len() && forall|i: int|
            0 <= i < r.unwrap()@.len() ==> (#[trigger] r.unwrap()@[i]).0@ == header_pairs(
                api_key@,
            )[i].0 && r.unwrap()@[i].1@ == header_pairs(api_key@)[i].1,
        r is Err ==> r->Err_0@ == "failed to parse header value"@,
{
    let mut headers: Vec<(String, String)> = Vec::new();
    headers.push((String::from_str("content-type"), String::from_str("application/json")));
    match bearer_token(api_key) {
        Some(token) => {
            match header_value_refusal(token.as_str()) {
                Some(refusal) => {
                    return Err(refusal);
                },
                None => {},
            }
            headers.push((String::from_str("authorization"), token));
        },
        None => {},
    }
    Ok(headers)
}

/// Whether an HTTP status reports success: from 200 to 299.
pub open spec fn is_success_status(status: u16) -> bool {
    200 <= status < 300
}

/// Tests an HTTP status for success.
pub fn is_success(status: u16) -> (b: bool)
    ensures
        b == is_success_status(status),
{
    200 <= status && status < 300
}

/// What a request to the engine was made for; a failure is reported under
/// its label.
#[derive(Clone, Copy, Debug, PartialEq, Eq, Structural)]
pub enum EngineCall {
    /// Any request that sets nothing.
    Request,
    /// A change of one section of the configuration.
    ConfigUpdate,
    /// A change of one provider's settings.
    ConfigLlm,
    /// The choice of the default provider.
    ConfigLlmDefault,
}

/// The words that open the report of a failed call.
pub open spec fn call_label(call: EngineCall) -> Seq<char> {
    match call {
        EngineCall::Request => "Engine request failed"@,
        EngineCall::ConfigUpdate => "Config update failed"@,
        EngineCall::ConfigLlm => "Config LLM failed"@,
        EngineCall::ConfigLlmDefault => "Config LLM default failed"@,
    }
}

/// The report of a call that the engine answered with `status`, and with
/// `detail` where its reply held one.
pub open spec fn failure_text(call: EngineCall, status: u16, detail: Option<Seq<char>>) -> Seq<
    char,
> {
    call_label(call) + " ("@ + decimal_text(status as nat) + "): "@ + match detail {
        Some(d) => d,
        None => "Unknown error"@,
    }
}

/// Writes the report of a failed call.
pub fn failure_message(call: EngineCall, status: u16, detail: Option<&str>) -> (text: String)
    ensures
        text@ == failure_text(
            call,
            status,
            match detail {
                Some(d) => Some(d@),
                None => None,
            },
        ),
{
    let mut text = match call {
        EngineCall::Request => String::from_str("Engine request failed"),
        EngineCall::ConfigUpdate => String::from_str("Config update failed"),
        EngineCall::ConfigLlm => String::from_str("Config LLM failed"),
        EngineCall::ConfigLlmDefault => String::from_str("Config LLM default failed"),
    };
    text.append(" (");
    let code = decimal_string(status as u32);
    text.append(code.as_str());
    text.append("): ");
    match detail {
        Some(d) => text.append(d),
        None => text.append("Unknown error"),
    }
    text
}

/// A JSON document of `serde_json`. Nothing inside it is visible to the
/// verifier; what the library reads from one goes through
/// [`string_member`].
#[verifier::external_type_specification]
#[verifier::external_body]
pub struct ExJsonValue(serde_json::Value);

/// The members of a JSON object whose values are strings, by their keys. A
/// document that is no object has none.
pub uninterp spec fn json_strings(body: serde_json::Value) -> Map<Seq<char>, Seq<char>>;

/// Looks up a string under `key`: `serde_json::Value::get` with a string
/// index, then `Value::as_str` on what it found. The first gives a member
/// only of an object that has the key, the second a string only of a JSON
/// string; the contract says so over [`json_strings`], and is believed, not
/// proved.
#[verifier::external_body]
fn string_member(body: &serde_json::Value, key: &str) -> (text: Option<String>)
    ensures
        match text {
            Some(t) => json_strings(*body).contains_key(key@) && json_strings(*body)[key@] == t@,
            None => !json_strings(*body).contains_key(key@),
        },
{
    match body.get(key) {
        Some(member) => match member.as_str() {
            Some(t) => Some(t.to_string()),
            None => None,
        },
        None => None,
    }
}

/// The detail that a reply gives of a failure: the string under `detail`.
pub open spec fn detail_of(body: serde_json::Value) -> Option<Seq<char>> {
    if json_strings(body).contains_key("detail"@) {
        Some(json_strings(body)["detail"@])
    } else {
        None
    }
}

/// Reads the engine's answer to a call: the body of the reply for a status
/// from 200 to 299, and else the report of the failure, with the detail that
/// the body gives.
pub fn read_reply(call: EngineCall, status: u16, body: serde_json::Value) -> (r: Result<
    serde_json::Value,
    String,
>)
    ensures
        is_success_status(status) ==> r == Ok::<serde_json::Value, String>(body),
        !is_success_status(status) ==> r is Err && r->Err_0@ == failure_text(
            call,
            status,
            detail_of(body),
        ),
{
    if is_success(status) {
        return Ok(body);
    }
    match string_member(&body, "detail") {
        Some(detail) => Err(failure_message(call, status, Some(detail.as_str()))),
        None => Err(failure_message(call, status, None)),
    }
}

/// The report of a health check that the engine answered with `status`.
pub open spec fn health_failure_text(status: u16) -> Seq<char> {
    "Engine health check failed (HTTP "@ + decimal_text(status as nat) + ")"@
}

/// Reads the engine's answer to a health check.
pub fn check_health(status: u16) -> (r: Result<(), String>)
    ensures
        is_success_status(status) ==> r is Ok,
        !is_success_status(status) ==> r is Err && r->Err_0@ == health_failure_text(status),
{
    if is_success(status) {
        return Ok(());
    }
    let mut text = String::from_str("Engine health check failed (HTTP ");
    let code = decimal_string(status as u32);
    text.append(code.as_str());
    text.append(")");
    Err(text)
}

/// The path of the history of one user's chat with a character, the newest
/// `limit` entries where a limit is given.
pub open spec fn history_path_text(slug: Seq<char>, user_id: Seq<char>, limit: Option<u32>) -> Seq<
    char,
> {
    let path = "/characters/"@ + slug + "/history/"@ + user_id;
    match limit {
        Some(n) => path + "?limit="@ + decimal_text(n as nat),
        None => path,
    }
}

/// Builds the path of a chat's history.
pub fn history_path(slug: &str, user_id: &str, limit: Option<u32>) -> (path: String)
    ensures
        path@ == history_path_text(slug@, user_id@, limit),
{
    let mut path = String::from_str("/characters/");
    path.append(slug);
    path.append("/history/");
    path.append(user_id);
    match limit {
        Some(n) => {
            path.append("?limit=");
            let digits = decimal_string(n);
            path.append(digits.as_str());
        },
        None => {},
    }
    path
}

} // verus!
