use kalosm::decode::{DecodeEvent, DecodeLoop, InferenceSettings};
use kalosm::session::LlamaSession;

const STOP_TOKEN: u32 = 999;

fn token(token: u32, text: &str) -> DecodeEvent {
    DecodeEvent::Token {
        token,
        text: Some(text.to_string()),
    }
}

#[test]
fn capital_of_france_reconstructs_from_chunks() {
    // The prompt is fed for bookkeeping only; the generated chunks
    // concatenate to the full continuation.
    let mut session = LlamaSession::new();
    session.push_token(100);
    let mut d = DecodeLoop::new(session, None, STOP_TOKEN);
    d.feed_prompt_token(101);
    let events = vec![
        token(1, " Paris"),
        token(2, ","),
        token(3, " of course"),
        DecodeEvent::Token {
            token: STOP_TOKEN,
            text: None,
        },
    ];
    let (outputs, consumed) = d.run(&events);
    assert_eq!(consumed, 4);
    assert!(d.is_finished());
    let full: String = outputs.concat();
    assert!(!full.is_empty());
    assert_eq!(full, " Paris, of course");
    // The prompt tokens and the generated tokens, but not the stop token,
    // are in the history.
    let session = d.into_session();
    assert_eq!(kalosm::model::Session::tokens(&session), &[100, 101, 1, 2, 3]);
}

#[test]
fn stop_phrase_ends_generation_and_drops_the_tail() {
    let d_session = LlamaSession::new();
    let mut d = DecodeLoop::new(d_session, Some("</think>".to_string()), STOP_TOKEN);
    let events = vec![
        token(1, "thinking"),
        token(2, "<"),
        token(3, "/think"),
        token(4, ">"),
        token(5, "done"),
    ];
    let (outputs, consumed) = d.run(&events);
    assert_eq!(outputs, vec!["thinking".to_string()]);
    assert_eq!(consumed, 4);
    assert!(d.is_finished());
}

#[test]
fn cancellation_stops_within_one_step() {
    let mut d = DecodeLoop::new(LlamaSession::new(), None, STOP_TOKEN);
    let events = vec![
        token(1, "a"),
        DecodeEvent::Cancelled,
        token(2, "b"),
        token(3, "c"),
    ];
    let (outputs, consumed) = d.run(&events);
    // Exactly one event at the cancellation is consumed, nothing after it.
    assert_eq!(consumed, 2);
    assert_eq!(outputs, vec!["a".to_string()]);
    assert!(d.is_finished());
}

#[test]
fn held_back_text_is_flushed_on_stop_token() {
    let mut d = DecodeLoop::new(LlamaSession::new(), Some("ab".to_string()), STOP_TOKEN);
    let events = vec![
        token(1, "xa"),
        DecodeEvent::Token {
            token: STOP_TOKEN,
            text: None,
        },
    ];
    let (outputs, _) = d.run(&events);
    assert_eq!(outputs, vec!["x".to_string(), "a".to_string()]);
}

#[test]
fn pending_text_emits_nothing() {
    let mut d = DecodeLoop::new(LlamaSession::new(), None, STOP_TOKEN);
    let out = d.step(&DecodeEvent::Token {
        token: 5,
        text: None,
    });
    assert_eq!(out.emit, None);
    assert!(!out.finished);
}

#[test]
fn inference_settings_carry_prompt_and_stop_phrase() {
    let s = InferenceSettings::new("The capital of France is", LlamaSession::new());
    assert_eq!(s.prompt, "The capital of France is");
    assert!(s.stop_on.is_none());
    let s = s.with_stop_on(Some("</think>".to_string()));
    assert_eq!(s.stop_on.as_deref(), Some("</think>"));
}
