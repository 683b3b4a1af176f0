use alfred::json::{JsonNumber, JsonValue};
use alfred::redaction::{RedactionRule, Redactor, DEFAULT_REPLACEMENT_TOKEN};

#[test]
fn redacts_structured_secret_fields() {
    let redactor = Redactor::try_default().expect("redactor should initialize");
    let input = "token=abc123 password: letmein api_key='abc-def'";
    let result = redactor.redact_text_with_stats(input);
    let output = result.output;

    assert_eq!(result.stats.redacted_spans, 3);

    assert!(output.contains("token=<RED->"));
    assert!(output.contains("password: <-RED->"));
    assert!(output.contains("api_key='<-RED->'"));
}

#[test]
fn redacts_email_and_bearer_patterns() {
    let redactor = Redactor::try_default().expect("redactor should initialize");
    let input = "Contact admin@example.com with Authorization: Bearer abc.def.ghi";
    let output = redactor.redact_text(input);

    assert!(!output.contains("admin@example.com"));
    assert!(!output.contains("abc.def.ghi"));
    assert!(output.contains("Bearer "));
    assert!(output.contains('<'));
}

#[test]
fn preserves_non_sensitive_text() {
    let redactor = Redactor::try_default().expect("redactor should initialize");
    let input = "workspace indexed with 42 files";
    let output = redactor.redact_text(input);

    assert_eq!(input, output);
}

#[test]
fn redacts_json_like_structured_fields_without_breaking_quotes() {
    let redactor = Redactor::try_default().expect("redactor should initialize");
    let input = r#"{"token":"abc123","nested":{"password":"letmein"}}"#;
    let output = redactor.redact_text(input);

    assert!(output.contains(r#""token":"<RED->""#));
    assert!(output.contains(r#""password":"<-RED->""#));
}

#[test]
fn uses_minimal_fallback_tokens_for_tiny_spans() {
    let redactor = Redactor::try_default().expect("redactor should initialize");
    assert_eq!(redactor.redact_text("token=a"), "token=*");
    assert_eq!(redactor.redact_text("token=ab"), "token=**");
}

#[test]
fn custom_rules_can_disable_structured_key_matching() {
    let redactor = Redactor::try_from_rules(
        true,
        DEFAULT_REPLACEMENT_TOKEN.to_string(),
        true,
        vec![RedactionRule::Regex {
            pattern: "(?i)example\\.com".to_string(),
            case_sensitive: false,
        }],
    )
    .expect("custom redactor should build");

    let input = "token=abc123 contact admin@example.com";
    let output = redactor.redact_text(input);

    assert!(output.contains("token=abc123"));
    assert!(!output.contains("admin@example.com"));
}

#[test]
fn json_values_are_redacted_in_place_keeping_their_shape() {
    let redactor = Redactor::try_default().expect("redactor should initialize");
    let mut value = JsonValue::Object(vec![
        ("mail".to_string(), JsonValue::String("write to admin@example.com".to_string())),
        (
            "list".to_string(),
            JsonValue::Array(vec![
                JsonValue::String("token=abc123".to_string()),
                JsonValue::Number(JsonNumber { unsigned: Some(7), text: "7".to_string() }),
                JsonValue::Bool(true),
            ]),
        ),
    ]);
    let stats = redactor.redact_json_value(&mut value);
    assert_eq!(stats.redacted_spans, 2);
    match &value {
        JsonValue::Object(entries) => {
            assert_eq!(entries[0].0, "mail");
            match &entries[0].1 {
                JsonValue::String(s) => assert!(!s.contains("admin@example.com")),
                _ => panic!("expected a string"),
            }
            match &entries[1].1 {
                JsonValue::Array(items) => {
                    assert_eq!(items.len(), 3);
                    match &items[0] {
                        JsonValue::String(s) => assert!(!s.contains("abc123")),
                        _ => panic!("expected a string"),
                    }
                    assert!(matches!(items[2], JsonValue::Bool(true)));
                }
                _ => panic!("expected an array"),
            }
        }
        _ => panic!("expected an object"),
    }
    let off = Redactor::try_from_rules(false, "<x>".to_string(), false, Vec::new()).expect("redactor");
    let mut plain = JsonValue::String("admin@example.com".to_string());
    assert_eq!(off.redact_json_value(&mut plain).redacted_spans, 0);
    assert!(matches!(plain, JsonValue::String(ref s) if s == "admin@example.com"));
}

#[test]
fn length_preserving_redaction_keeps_the_character_count() {
    let redactor = Redactor::try_default().expect("redactor should initialize");
    let input = "token=abc123 mail é admin@example.com password: letmein api_key='a-very-long-secret-value'";
    let output = redactor.redact_text(input);
    assert_ne!(output, input);
    assert_eq!(output.chars().count(), input.chars().count());
}
