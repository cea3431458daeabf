use chat_appearance::chat_manager::provider_adapter::lettuce_engine::LettuceEngineAdapter;
use chat_appearance::engine::commands::{
    bearer_token, check_health, endpoint_url, engine_headers, failure_message, history_path,
    is_success, read_reply, trim_url, EngineCall,
};
use chat_appearance::engine::types::{
    ConfigBackgroundRequest, ConfigEngineRequest, ConfigLlmDefaultRequest, ConfigResearchRequest,
    ConfigSafetyRequest, HealthResponse, SetupCompleteResponse, SetupStatusResponse,
};
use chat_appearance::text::{decimal_string, is_whitespace, str_eq, trim_spaces};
use std::collections::HashMap;

fn pair(name: &str, value: &str) -> (String, String) {
    (name.to_string(), value.to_string())
}

fn as_map(pairs: &[(String, String)]) -> HashMap<String, String> {
    pairs.iter().cloned().collect()
}

#[test]
fn trim_url_removes_every_trailing_slash() {
    assert_eq!(trim_url("http://localhost:8000/"), "http://localhost:8000");
    assert_eq!(trim_url("http://localhost:8000///"), "http://localhost:8000");
    assert_eq!(trim_url("http://localhost:8000"), "http://localhost:8000");
    assert_eq!(trim_url("http://host/a/b/"), "http://host/a/b");
    assert_eq!(trim_url("///"), "");
    assert_eq!(trim_url(""), "");
    assert_eq!(trim_url("http://h\u{f6}st/\u{e9}/"), "http://h\u{f6}st/\u{e9}");
}

#[test]
fn endpoint_url_joins_base_and_path() {
    assert_eq!(endpoint_url("http://h:1/", "/status"), "http://h:1/status");
    assert_eq!(endpoint_url("http://h:1", "/characters/a/load"), "http://h:1/characters/a/load");
    assert_eq!(endpoint_url("", ""), "");
}

#[test]
fn bearer_token_is_absent_for_an_empty_key() {
    assert_eq!(bearer_token(""), None);
    assert_eq!(bearer_token("abc"), Some("Bearer abc".to_string()));
    assert_eq!(bearer_token(" "), Some("Bearer  ".to_string()));
}

#[test]
fn engine_headers_hold_the_key_only_where_there_is_one() {
    assert_eq!(engine_headers(""), Ok(vec![pair("content-type", "application/json")]));
    assert_eq!(
        engine_headers("k1"),
        Ok(vec![pair("content-type", "application/json"), pair("authorization", "Bearer k1")])
    );
    assert_eq!(
        engine_headers("k\u{e9}y\twith tab"),
        Ok(vec![
            pair("content-type", "application/json"),
            pair("authorization", "Bearer k\u{e9}y\twith tab")
        ])
    );
}

#[test]
fn engine_headers_refuse_a_key_that_no_header_can_hold() {
    for key in ["a\nb", "\r", "k\u{0}", "k\u{7f}", "\u{1b}[0m", "line\u{b}"] {
        assert_eq!(engine_headers(key), Err("failed to parse header value".to_string()));
    }
    for code in 0..256u32 {
        let c = char::from_u32(code).unwrap();
        let sendable = code >= 32 && code != 127 || code == 9;
        assert_eq!(engine_headers(&format!("k{c}")).is_ok(), sendable);
    }
}

#[test]
fn success_is_the_range_of_two_hundred() {
    assert!(!is_success(0));
    assert!(!is_success(199));
    assert!(is_success(200));
    assert!(is_success(204));
    assert!(is_success(299));
    assert!(!is_success(300));
    assert!(!is_success(404));
    assert!(!is_success(u16::MAX));
}

#[test]
fn failure_message_reports_each_call_under_its_label() {
    assert_eq!(
        failure_message(EngineCall::Request, 404, Some("no such character")),
        "Engine request failed (404): no such character"
    );
    assert_eq!(
        failure_message(EngineCall::Request, 500, None),
        "Engine request failed (500): Unknown error"
    );
    assert_eq!(
        failure_message(EngineCall::ConfigUpdate, 422, Some("bad level")),
        "Config update failed (422): bad level"
    );
    assert_eq!(
        failure_message(EngineCall::ConfigLlm, 401, None),
        "Config LLM failed (401): Unknown error"
    );
    assert_eq!(
        failure_message(EngineCall::ConfigLlmDefault, 300, Some("")),
        "Config LLM default failed (300): "
    );
}

fn json(text: &str) -> serde_json::Value {
    serde_json::from_str(text).unwrap()
}

#[test]
fn read_reply_hands_the_body_back_on_success() {
    let body = json(r#"{"detail": "ignored", "n": [1, 2]}"#);
    assert_eq!(read_reply(EngineCall::Request, 200, body.clone()), Ok(body.clone()));
    assert_eq!(read_reply(EngineCall::ConfigLlm, 299, body.clone()), Ok(body));
    assert_eq!(
        read_reply(EngineCall::Request, 204, serde_json::Value::Null),
        Ok(serde_json::Value::Null)
    );
}

#[test]
fn read_reply_reports_the_detail_of_a_failure() {
    assert_eq!(
        read_reply(EngineCall::Request, 404, json(r#"{"detail": "no such character"}"#)),
        Err("Engine request failed (404): no such character".to_string())
    );
    assert_eq!(
        read_reply(EngineCall::ConfigUpdate, 422, json(r#"{"x": 1, "detail": "bad level"}"#)),
        Err("Config update failed (422): bad level".to_string())
    );
    assert_eq!(
        read_reply(EngineCall::ConfigLlmDefault, 199, json(r#"{"detail": ""}"#)),
        Err("Config LLM default failed (199): ".to_string())
    );
}

#[test]
fn read_reply_without_a_detail_string_says_unknown() {
    for body in [
        "null",
        "{}",
        r#"{"Detail": "wrong case"}"#,
        r#"{"detail": 5}"#,
        r#"{"detail": null}"#,
        r#"{"detail": ["a"]}"#,
        r#"{"detail": {"detail": "nested"}}"#,
        r#"["detail"]"#,
        r#""detail""#,
    ] {
        assert_eq!(
            read_reply(EngineCall::Request, 500, json(body)),
            Err("Engine request failed (500): Unknown error".to_string())
        );
    }
}

#[test]
fn check_health_reports_the_status() {
    assert_eq!(check_health(200), Ok(()));
    assert_eq!(check_health(503), Err("Engine health check failed (HTTP 503)".to_string()));
    assert_eq!(check_health(0), Err("Engine health check failed (HTTP 0)".to_string()));
}

#[test]
fn history_path_takes_an_optional_limit() {
    assert_eq!(history_path("mia", "u1", None), "/characters/mia/history/u1");
    assert_eq!(history_path("mia", "u1", Some(20)), "/characters/mia/history/u1?limit=20");
    assert_eq!(history_path("", "", Some(0)), "/characters//history/?limit=0");
    assert_eq!(
        history_path("a", "b", Some(u32::MAX)),
        "/characters/a/history/b?limit=4294967295"
    );
}

#[test]
fn decimal_string_writes_every_digit() {
    assert_eq!(decimal_string(0), "0");
    assert_eq!(decimal_string(7), "7");
    assert_eq!(decimal_string(10), "10");
    assert_eq!(decimal_string(1234567890), "1234567890");
    assert_eq!(decimal_string(u32::MAX), "4294967295");
}

#[test]
fn white_space_is_what_unicode_says() {
    for c in ['\t', '\n', '\u{b}', '\u{c}', '\r', ' ', '\u{85}', '\u{a0}', '\u{1680}', '\u{2000}',
        '\u{200a}', '\u{2028}', '\u{2029}', '\u{202f}', '\u{205f}', '\u{3000}']
    {
        assert!(is_whitespace(c));
    }
    for c in ['a', '0', '#', '\u{8}', '\u{e}', '\u{200b}', '\u{feff}', '\u{1f}'] {
        assert!(!is_whitespace(c));
    }
    for n in 0..0x3100u32 {
        if let Some(c) = char::from_u32(n) {
            assert_eq!(is_whitespace(c), c.is_whitespace());
        }
    }
}

#[test]
fn trim_spaces_keeps_inner_white_space() {
    let s: Vec<char> = "  a b\t ".chars().collect();
    let t: String = trim_spaces(&s).iter().collect();
    assert_eq!(t, "a b");
    let s: Vec<char> = " \n ".chars().collect();
    assert!(trim_spaces(&s).is_empty());
}

#[test]
fn str_eq_compares_characters() {
    assert!(str_eq("", ""));
    assert!(str_eq("neutral", "neutral"));
    assert!(!str_eq("neutral", "Neutral"));
    assert!(!str_eq("neutral", "neutra"));
    assert!(!str_eq("a", "b"));
}

#[test]
fn adapter_answers_for_the_engine() {
    let adapter = LettuceEngineAdapter;
    assert_eq!(adapter.endpoint("http://localhost:8000/"), "http://localhost:8000/health");
    assert_eq!(adapter.endpoint("http://localhost:8000"), "http://localhost:8000/health");
    assert_eq!(adapter.system_role(), "system");
    assert!(!adapter.supports_stream());
    assert_eq!(adapter.required_auth_headers(), ["Authorization"].as_slice());
}

#[test]
fn adapter_default_headers_hold_a_placeholder() {
    let got = as_map(&LettuceEngineAdapter.default_headers_template());
    let mut want = HashMap::new();
    want.insert("Authorization".to_string(), "Bearer <apiKey>".to_string());
    want.insert("Content-Type".to_string(), "application/json".to_string());
    assert_eq!(got, want);
}

#[test]
fn adapter_headers_without_extra() {
    let out = LettuceEngineAdapter.headers("k", None);
    assert_eq!(
        out,
        vec![pair("Authorization", "Bearer k"), pair("Content-Type", "application/json")]
    );
}

#[test]
fn adapter_headers_let_extra_replace_and_add() {
    let extra = vec![
        pair("X-Trace", "1"),
        pair("Content-Type", "text/plain"),
        pair("X-Trace", "2"),
    ];
    let out = LettuceEngineAdapter.headers("k", Some(&extra));
    assert_eq!(out.len(), 3);
    let got = as_map(&out);
    let mut want = HashMap::new();
    want.insert("Authorization".to_string(), "Bearer k".to_string());
    want.insert("Content-Type".to_string(), "text/plain".to_string());
    want.insert("X-Trace".to_string(), "2".to_string());
    assert_eq!(got, want);
}

#[test]
fn request_and_reply_bodies_hold_their_fields() {
    let health = HealthResponse { status: "ok".to_string(), version: None };
    assert_eq!(health.status, "ok");
    assert!(health.version.is_none());
    let setup = SetupStatusResponse {
        needs_setup: true,
        configured_providers: vec!["openai".to_string()],
        has_api_key: Some(false),
    };
    assert!(setup.needs_setup);
    assert_eq!(setup.configured_providers.len(), 1);
    assert_eq!(setup.has_api_key, Some(false));
    assert_eq!(SetupCompleteResponse { status: "done".to_string() }.status, "done");
    assert_eq!(ConfigLlmDefaultRequest { provider: "p".to_string() }.provider, "p");
    let engine = ConfigEngineRequest { data_dir: None, log_level: None, max_history: Some(5) };
    assert_eq!(engine.max_history, Some(5));
    let background = ConfigBackgroundRequest {
        synthesis_interval_minutes: Some(1),
        consolidation_interval_minutes: None,
        bm25_rebuild_interval_minutes: None,
        drip_research_interval_minutes: None,
    };
    assert_eq!(background.synthesis_interval_minutes, Some(1));
    let safety = ConfigSafetyRequest { honesty_section: Some(true), user_data_deletion: None };
    assert_eq!(safety.honesty_section, Some(true));
    let research =
        ConfigResearchRequest { initial_scrape_on_boot: None, periodic_interval_hours: Some(6) };
    assert_eq!(research.periodic_interval_hours, Some(6));
}
