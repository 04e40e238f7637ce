use magicbox::error::ProviderError;
use magicbox::lang::Lang;
use magicbox::provider::{
    completions_url, first_choice, is_success_status, status_error, user_prompt, ProviderKind,
};

#[test]
fn prompt_embeds_tags_and_text() {
    assert_eq!(
        user_prompt("hello", Some(Lang::En), Lang::Zh),
        "Source: en\nTarget: zh\nText:\nhello"
    );
    assert_eq!(user_prompt("你好", None, Lang::En), "Source: auto\nTarget: en\nText:\n你好");
}

#[test]
fn url_drops_trailing_slashes() {
    assert_eq!(
        completions_url("https://api.deepseek.com"),
        "https://api.deepseek.com/v1/chat/completions"
    );
    assert_eq!(
        completions_url("https://api.deepseek.com//"),
        "https://api.deepseek.com/v1/chat/completions"
    );
    assert_eq!(completions_url(""), "/v1/chat/completions");
}

#[test]
fn non_success_status_is_transport_error() {
    assert!(is_success_status(200));
    assert!(is_success_status(204));
    assert!(is_success_status(299));
    assert!(!is_success_status(199));
    assert!(!is_success_status(300));
    assert!(!is_success_status(404));
    match status_error(404, "Not Found", "oops") {
        ProviderError::Http(m) => assert_eq!(m, "status=404 Not Found body=oops"),
        _ => panic!("expected a transport error"),
    }
    match status_error(503, "Service Unavailable", "") {
        ProviderError::Http(m) => assert_eq!(m, "status=503 Service Unavailable body="),
        _ => panic!("expected a transport error"),
    }
}

#[test]
fn missing_choice_is_bad_response() {
    match first_choice(Vec::new()) {
        Err(ProviderError::BadResponse(m)) => assert_eq!(m, "empty choices"),
        _ => panic!("expected a bad response"),
    }
    let r = first_choice(vec!["a".to_string(), "b".to_string()]);
    assert!(matches!(r, Ok(ref s) if s == "a"));
}

#[test]
fn provider_selection() {
    assert_eq!(ProviderKind::from_name("deepseek"), Some(ProviderKind::Deepseek));
    assert_eq!(ProviderKind::from_name("openai"), None);
    assert_eq!(ProviderKind::Deepseek.name(), "deepseek");
}
