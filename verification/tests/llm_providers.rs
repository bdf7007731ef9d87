use rscholar::error::GscholarError;
use rscholar::llm::{
    chat_response_text, normalize_endpoint_for_interface, responses_response_text,
    InterfaceType, JsonValue, OpenAiCompatibleProvider,
};
use rscholar::providers::{normalize_name, prepare_upsert, validate_common, UpsertProvider};

fn json(body: &str) -> JsonValue {
    fn convert(v: &serde_json::Value) -> JsonValue {
        match v {
            serde_json::Value::Null => JsonValue::Null,
            serde_json::Value::Bool(b) => JsonValue::Bool(*b),
            serde_json::Value::Number(n) => JsonValue::Number(n.to_string()),
            serde_json::Value::String(s) => JsonValue::Str(s.clone()),
            serde_json::Value::Array(a) => JsonValue::Array(a.iter().map(convert).collect()),
            serde_json::Value::Object(o) => JsonValue::Object(
                o.iter().map(|(k, v)| (k.clone(), convert(v))).collect(),
            ),
        }
    }
    convert(&serde_json::from_str(body).expect("json"))
}

fn field<'a>(v: &'a JsonValue, key: &str) -> Option<&'a JsonValue> {
    match v {
        JsonValue::Object(fields) => fields.iter().find(|(k, _)| k == key).map(|(_, v)| v),
        _ => None,
    }
}

#[test]
fn openai_compatible_parses_chat_and_responses_shapes() {
    let chat = r#"{"choices":[{"message":{"content":"machine learning"}}]}"#;
    let responses_output_text = r#"{"output_text":"rock strength prediction"}"#;
    let responses_nested =
        r#"{"output":[{"content":[{"type":"output_text","text":"deep learning"}]}]}"#;

    assert_eq!(
        OpenAiCompatibleProvider::parse_chat_response(chat).unwrap(),
        "machine learning"
    );
    assert_eq!(
        OpenAiCompatibleProvider::parse_responses_response(responses_output_text).unwrap(),
        "rock strength prediction"
    );
    assert_eq!(
        OpenAiCompatibleProvider::parse_responses_response(responses_nested).unwrap(),
        "deep learning"
    );
}

#[test]
fn unparsable_bodies_are_parse_errors() {
    match OpenAiCompatibleProvider::parse_chat_response("not json") {
        Err(GscholarError::Parse(m)) => assert!(m.starts_with("Failed to parse chat response: ")),
        other => panic!("unexpected: {:?}", other),
    }
    match OpenAiCompatibleProvider::parse_responses_response("{") {
        Err(GscholarError::Parse(m)) => {
            assert!(m.starts_with("Failed to parse responses API response: "))
        }
        other => panic!("unexpected: {:?}", other),
    }
    let provider = OpenAiCompatibleProvider::new(
        "custom",
        InterfaceType::Responses,
        "https://example.com",
        "m",
        "k",
    )
    .unwrap();
    assert_eq!(
        provider.parse_response_body(r#"{"output_text":" ok "}"#),
        Ok("ok".to_string())
    );
}

#[test]
fn empty_answers_are_parse_errors() {
    assert_eq!(
        chat_response_text(&json(r#"{"choices":[]}"#)),
        Err(GscholarError::Parse("Empty chat completion response content".to_string()))
    );
    assert_eq!(
        chat_response_text(&json(r#"{"choices":[{"message":{"content":"   "}}]}"#)),
        Err(GscholarError::Parse("Empty chat completion response content".to_string()))
    );
    assert_eq!(
        responses_response_text(&json(r#"{"output_text":"  ","output":[]}"#)),
        Err(GscholarError::Parse("Empty responses API response content".to_string()))
    );
}

#[test]
fn responses_blocks_are_joined_by_new_lines() {
    let body = r#"{"output_text":" ","output":[
        {"content":[{"type":"output_text","text":" first "},{"type":"refusal"}]},
        {"content":"not a list"},
        {"content":[{"type":"output_text","text":"second"},{"text":"  "}]}
    ]}"#;
    assert_eq!(responses_response_text(&json(body)).unwrap(), "first\nsecond");
}

#[test]
fn openai_compatible_builds_distinct_payloads() {
    let provider = OpenAiCompatibleProvider::new_for_test(
        "custom",
        InterfaceType::ChatCompletions,
        "https://example.com/v1/chat/completions",
        "demo-model",
        "test-key",
    )
    .unwrap();
    let payload = provider.build_payload_for_test("translate this");
    assert!(matches!(field(&payload, "model"), Some(JsonValue::Str(m)) if m == "demo-model"));
    assert!(field(&payload, "messages").is_some());
    assert!(matches!(field(&payload, "stream"), Some(JsonValue::Bool(false))));

    let provider = OpenAiCompatibleProvider::new_for_test(
        "custom",
        InterfaceType::Responses,
        "https://example.com/v1/responses",
        "demo-model",
        "test-key",
    )
    .unwrap();
    let payload = provider.build_payload_for_test("translate this");
    assert!(matches!(field(&payload, "model"), Some(JsonValue::Str(m)) if m == "demo-model"));
    match field(&payload, "input") {
        Some(JsonValue::Array(items)) => {
            assert_eq!(items.len(), 1);
            assert!(matches!(field(&items[0], "role"), Some(JsonValue::Str(r)) if r == "user"));
        }
        other => panic!("unexpected input: {:?}", other),
    }
}

#[test]
fn openai_compatible_accepts_base_urls_and_normalizes_endpoint() {
    let chat_provider = OpenAiCompatibleProvider::new_for_test(
        "custom",
        InterfaceType::ChatCompletions,
        "https://example.com",
        "demo-model",
        "test-key",
    )
    .unwrap();
    assert_eq!(
        chat_provider.endpoint_for_test(),
        "https://example.com/v1/chat/completions"
    );

    let responses_provider = OpenAiCompatibleProvider::new_for_test(
        "custom",
        InterfaceType::Responses,
        "https://example.com/v1",
        "demo-model",
        "test-key",
    )
    .unwrap();
    assert_eq!(
        responses_provider.endpoint_for_test(),
        "https://example.com/v1/responses"
    );
}

#[test]
fn endpoints_keep_existing_paths_and_drop_trailing_slashes() {
    assert_eq!(
        normalize_endpoint_for_interface(" https://x.io/V1/Responses/ ", InterfaceType::Responses),
        "https://x.io/V1/Responses"
    );
    assert_eq!(
        normalize_endpoint_for_interface("https://x.io/api/chat/completions", InterfaceType::ChatCompletions),
        "https://x.io/api/chat/completions"
    );
}

#[test]
fn provider_settings_must_not_be_blank() {
    assert!(matches!(
        OpenAiCompatibleProvider::new(" ", InterfaceType::Responses, "e", "m", "k"),
        Err(GscholarError::Config(m)) if m == "LLM provider name is required"
    ));
    assert!(matches!(
        OpenAiCompatibleProvider::new("n", InterfaceType::Responses, "e", "m", " "),
        Err(GscholarError::Config(m)) if m == "LLM provider API key is required"
    ));
    let p = OpenAiCompatibleProvider::new(" n ", InterfaceType::Responses, "https://e", " m ", " k ")
        .unwrap();
    assert_eq!(p.name(), "n");
}

#[test]
fn interface_names_are_parsed() {
    assert_eq!(InterfaceType::parse(" Chat-Completions "), Ok(InterfaceType::ChatCompletions));
    assert_eq!(InterfaceType::parse("response"), Ok(InterfaceType::Responses));
    assert_eq!(
        InterfaceType::parse("Legacy-API"),
        Err(GscholarError::Config(
            "Unsupported LLM interface_type 'legacy_api'. Supported: chat_completions, responses"
                .to_string()
        ))
    );
    assert_eq!(InterfaceType::Responses.as_str(), "responses");
}

fn submission(api_key: Option<&str>, model: &str, enabled: bool, order: i64) -> UpsertProvider {
    UpsertProvider {
        name: "custom".to_string(),
        enabled,
        interface_type: "responses".to_string(),
        endpoint: "https://example.com/v1/responses".to_string(),
        model: model.to_string(),
        api_key: api_key.map(str::to_string),
        order,
    }
}

#[test]
fn provider_upsert_preserves_api_key_when_blank() {
    let first = prepare_upsert(&submission(Some("sk-secret"), "demo-model", true, 7), None).unwrap();
    assert_eq!(first.api_key, "sk-secret");

    let second = prepare_upsert(
        &submission(None, "demo-model-2", false, 8),
        Some(first.api_key.clone()),
    )
    .unwrap();
    assert_eq!(second.name, "custom");
    assert!(!second.enabled);
    assert_eq!(second.api_key, "sk-secret");
    assert_eq!(second.model, "demo-model-2");
    assert_eq!(second.order, 8);

    let blank = prepare_upsert(&submission(Some("   "), "m", true, 1), Some("sk-old".to_string()))
        .unwrap();
    assert_eq!(blank.api_key, "sk-old");
    let replaced = prepare_upsert(&submission(Some(" sk-new "), "m", true, 1), Some("sk-old".to_string()))
        .unwrap();
    assert_eq!(replaced.api_key, "sk-new");
    let none = prepare_upsert(&submission(None, "m", true, 1), None).unwrap();
    assert_eq!(none.api_key, "");
}

#[test]
fn provider_submissions_are_validated() {
    assert_eq!(normalize_name("  Custom "), Ok("custom".to_string()));
    assert_eq!(
        normalize_name("   "),
        Err(GscholarError::Validation("LLM provider name is required".to_string()))
    );
    let mut p = submission(None, "m", true, 1);
    p.endpoint = " ".to_string();
    assert_eq!(
        validate_common(&p),
        Err(GscholarError::Validation("LLM provider endpoint is required".to_string()))
    );
    let mut p = submission(None, " ", true, 1);
    p.endpoint = "https://e".to_string();
    assert_eq!(
        validate_common(&p),
        Err(GscholarError::Validation("LLM provider model is required".to_string()))
    );
    let mut p = submission(None, "m", true, 1);
    p.interface_type = "grpc".to_string();
    assert!(matches!(validate_common(&p), Err(GscholarError::Config(_))));
    let row = prepare_upsert(&submission(None, " m ", true, 1), None).unwrap();
    assert_eq!(row.endpoint, "https://example.com/v1/responses");
    assert_eq!(row.model, "m");
    assert_eq!(row.interface_type, "responses");
}

#[test]
fn non_ascii_provider_names_are_kept_lower_cased() {
    assert_eq!(normalize_name("  ÜBER Modell ").unwrap(), "über modell");
    assert!(matches!(normalize_name(" \t "), Err(GscholarError::Validation(_))));
}
