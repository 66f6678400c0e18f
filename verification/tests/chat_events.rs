use kalosm::chat::{
    process_chat_response, ChatEventAction, ChatResponse, ChatResponseChoice, ChatResponseDelta,
    FinishReason, OpenAICompatibleClient,
};

fn event(
    content: Option<&str>,
    refusal: Option<&str>,
    finish_reason: Option<FinishReason>,
) -> ChatResponse {
    ChatResponse {
        choices: vec![ChatResponseChoice {
            delta: ChatResponseDelta {
                content: content.map(|s| s.to_string()),
                refusal: refusal.map(|s| s.to_string()),
            },
            finish_reason,
        }],
    }
}

#[test]
fn content_is_emitted() {
    let a = process_chat_response(&event(Some("Hello"), None, None));
    assert!(matches!(a, ChatEventAction::Emit(t) if t == "Hello"));
}

#[test]
fn missing_content_is_ignored() {
    let a = process_chat_response(&event(None, None, None));
    assert!(matches!(a, ChatEventAction::Ignore));
}

#[test]
fn no_choices_fail_the_request() {
    let a = process_chat_response(&ChatResponse { choices: vec![] });
    assert!(matches!(a, ChatEventAction::FailNoMessageChoices));
}

#[test]
fn refusals_fail_with_their_message() {
    let a = process_chat_response(&event(Some("x"), Some("I cannot"), None));
    assert!(matches!(a, ChatEventAction::FailRefusal(m) if m == "I cannot"));
}

#[test]
fn content_filter_stop_fails_the_request() {
    let a = process_chat_response(&event(None, None, Some(FinishReason::ContentFilter)));
    assert!(matches!(a, ChatEventAction::FailRefusal(m) if m == "ContentFilter"));
}

#[test]
fn function_calls_are_not_supported() {
    let a = process_chat_response(&event(None, None, Some(FinishReason::FunctionCall)));
    assert!(matches!(a, ChatEventAction::FailFunctionCallsNotSupported));
}

#[test]
fn other_finish_reasons_complete_the_answer() {
    let a = process_chat_response(&event(None, None, Some(FinishReason::Stop)));
    assert!(matches!(a, ChatEventAction::Finish));
    let a = process_chat_response(&event(None, None, Some(FinishReason::MaxTokens)));
    assert!(matches!(a, ChatEventAction::Finish));
}

#[test]
fn api_key_resolution() {
    let c = OpenAICompatibleClient::new();
    assert!(c.resolve_api_key().is_err());
    let c = c.with_api_key("SECRET-REDACTED");
    assert_eq!(c.resolve_api_key().unwrap(), "SECRET-REDACTED");
}
