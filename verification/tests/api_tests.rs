use kuku::api::{
    check_status, chat_messages, first_choice, parse_header, reply_text, AssistantConfig,
    AssistantGate, ChatError, Message, DEFAULT_BASE_URL, DEFAULT_MODEL,
};

fn config(key: Option<&str>) -> AssistantConfig {
    AssistantConfig {
        enabled: None,
        api_key: key.map(|k| k.to_string()),
        model: None,
        base_url: None,
        custom_headers: None,
    }
}

fn msg(role: &str, content: Option<&str>) -> Message {
    Message {
        role: role.to_string(),
        content: content.map(|c| c.to_string()),
        tool_calls: None,
        tool_call_id: None,
    }
}

#[test]
fn default_config_values() {
    let c = AssistantConfig::default_config();
    assert_eq!(c.enabled, Some(true));
    assert_eq!(c.api_key, None);
    assert_eq!(c.model.as_deref(), Some(DEFAULT_MODEL));
    assert_eq!(c.base_url.as_deref(), Some(DEFAULT_BASE_URL));
    assert!(c.custom_headers.is_none());
}

#[test]
fn render_full_config() {
    let c = AssistantConfig {
        enabled: Some(false),
        api_key: Some("sk-abc".to_string()),
        model: Some("GLM-4.7".to_string()),
        base_url: Some("https://example.com/v1".to_string()),
        custom_headers: Some(vec!["X-A: 1".to_string(), "X-B: 2".to_string()]),
    };
    assert_eq!(
        c.render(),
        "# Kuku Assistant configuration\n\nenabled = false\napi_key = \"sk-abc\"\nmodel = \"GLM-4.7\"\nbase_url = \"https://example.com/v1\"\ncustom_headers = [\"X-A: 1\", \"X-B: 2\"]\n# Available models: Doubao-Seed-2.0-pro, Doubao-Seed-2.0-Code, MiniMax-M2.5, GLM-4.7, DeepSeek-V3.2\n"
    );
}

#[test]
fn render_defaults() {
    let c = config(None);
    assert_eq!(
        c.render(),
        format!("# Kuku Assistant configuration\n\nenabled = true\n# api_key = \"<your_api_key>\"\nmodel = \"{}\"\nbase_url = \"{}\"\n# Available models: Doubao-Seed-2.0-pro, Doubao-Seed-2.0-Code, MiniMax-M2.5, GLM-4.7, DeepSeek-V3.2\n", DEFAULT_MODEL, DEFAULT_BASE_URL)
    );
}

#[test]
fn chat_url_trims_slashes() {
    let mut c = config(None);
    c.base_url = Some("https://h/v1//".to_string());
    assert_eq!(c.chat_url(), "https://h/v1/chat/completions");
    let d = config(None);
    assert_eq!(d.chat_url(), format!("{}/chat/completions", DEFAULT_BASE_URL));
}

#[test]
fn gate_and_key() {
    assert!(matches!(config(None).gate(), AssistantGate::MissingKey));
    assert!(matches!(config(Some("")).gate(), AssistantGate::MissingKey));
    assert!(matches!(config(Some("k")).gate(), AssistantGate::Ready));
    let mut off = config(Some("k"));
    off.enabled = Some(false);
    assert!(matches!(off.gate(), AssistantGate::Disabled));
    assert_eq!(config(Some("")).api_key_value(), None);
    assert_eq!(config(Some("k")).api_key_value(), Some("k".to_string()));
    assert!(!config(None).has_api_key());
}

#[test]
fn model_and_base_url_defaults() {
    let mut c = config(None);
    assert_eq!(c.model_name(), DEFAULT_MODEL);
    c.model = Some("MiniMax-M2.5".to_string());
    assert_eq!(c.model_name(), "MiniMax-M2.5");
    assert_eq!(c.base_url_value(), DEFAULT_BASE_URL);
}

#[test]
fn header_entries_are_filtered_and_trimmed() {
    assert_eq!(parse_header(" X-Id : 42 "), Some(("X-Id".to_string(), "42".to_string())));
    assert_eq!(parse_header("X-Url: http://a:b"), Some(("X-Url".to_string(), "http://a:b".to_string())));
    assert_eq!(parse_header("no colon"), None);
    assert_eq!(parse_header("AUTHORIZATION: x"), None);
    assert_eq!(parse_header(" content-type : y"), None);
    let mut c = config(None);
    c.custom_headers = Some(vec!["A: 1".to_string(), "bad".to_string(), "Authorization: z".to_string(), "B:2".to_string()]);
    assert_eq!(
        c.custom_header_pairs(),
        vec![("A".to_string(), "1".to_string()), ("B".to_string(), "2".to_string())]
    );
    assert!(config(None).custom_header_pairs().is_empty());
}

#[test]
fn plain_chat_messages() {
    let m = chat_messages("sys", "hello");
    assert_eq!(m.len(), 2);
    assert_eq!(m[0].role, "system");
    assert_eq!(m[0].content.as_deref(), Some("sys"));
    assert_eq!(m[1].role, "user");
    assert_eq!(m[1].content.as_deref(), Some("hello"));
}

#[test]
fn status_and_choices() {
    assert!(check_status(200, "").is_ok());
    assert!(check_status(299, "").is_ok());
    match check_status(404, "nope") {
        Err(ChatError::Api { status, body }) => {
            assert_eq!(status, 404);
            assert_eq!(body, "nope");
        }
        _ => panic!("expected an API error"),
    }
    assert!(matches!(first_choice(vec![]), Err(ChatError::EmptyResponse)));
    let m = first_choice(vec![msg("assistant", Some("a")), msg("assistant", Some("b"))]);
    match m {
        Ok(m) => assert_eq!(m.content.as_deref(), Some("a")),
        _ => panic!("expected the first choice"),
    }
    assert_eq!(reply_text(msg("assistant", None)), "");
    assert_eq!(reply_text(msg("assistant", Some("hi"))), "hi");
}
