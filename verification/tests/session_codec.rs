use kalosm::chat::{ChatHistoryItem, MessageType, OpenAICompatibleChatSession};
use kalosm::error::GenerationError;
use kalosm::model::Session;
use kalosm::session::LlamaSession;

#[test]
fn llama_session_round_trips() {
    let mut s = LlamaSession::new();
    s.push_token(7);
    s.push_token(0);
    s.push_token(4242);
    let bytes = s.to_bytes().unwrap();
    let back = LlamaSession::from_bytes(&bytes).unwrap();
    assert_eq!(back.tokens(), &[7, 0, 4242]);
}

#[test]
fn empty_llama_session_round_trips() {
    let s = LlamaSession::new();
    let bytes = s.to_bytes().unwrap();
    let back = LlamaSession::from_bytes(&bytes).unwrap();
    assert_eq!(back.tokens(), &[] as &[u32]);
}

#[test]
fn try_clone_is_independent() {
    let mut s = LlamaSession::new();
    s.push_token(1);
    let mut copy = s.try_clone().unwrap();
    copy.push_token(2);
    assert_eq!(s.tokens(), &[1]);
    assert_eq!(copy.tokens(), &[1, 2]);
}

#[test]
fn malformed_session_bytes_are_rejected() {
    assert_eq!(
        LlamaSession::from_bytes(&[]).unwrap_err(),
        GenerationError::CorruptSession
    );
    assert_eq!(
        LlamaSession::from_bytes(&[1, 2, 3]).unwrap_err(),
        GenerationError::CorruptSession
    );
    let mut s = LlamaSession::new();
    s.push_token(9);
    let mut bytes = s.to_bytes().unwrap();
    // Flip the magic.
    bytes[0] ^= 0xff;
    assert_eq!(
        LlamaSession::from_bytes(&bytes).unwrap_err(),
        GenerationError::CorruptSession
    );
    // Truncate the payload.
    let bytes = s.to_bytes().unwrap();
    assert_eq!(
        LlamaSession::from_bytes(&bytes[..bytes.len() - 1]).unwrap_err(),
        GenerationError::CorruptSession
    );
}

#[test]
fn chat_session_round_trips() {
    let mut s = OpenAICompatibleChatSession::new();
    s.push_message(ChatHistoryItem::new(MessageType::UserMessage, "Hello, world!"));
    s.push_message(ChatHistoryItem::new(
        MessageType::ModelAnswer,
        "Gr\u{00fc}\u{00df}e \u{2014} \u{1f600}",
    ));
    let mut bytes = Vec::new();
    s.write_to(&mut bytes).unwrap();
    let back = OpenAICompatibleChatSession::from_bytes(&bytes).unwrap();
    let history = back.history();
    assert_eq!(history.len(), 2);
    assert_eq!(history[0].role, MessageType::UserMessage);
    assert_eq!(history[0].content, "Hello, world!");
    assert_eq!(history[1].role, MessageType::ModelAnswer);
    assert_eq!(history[1].content, "Gr\u{00fc}\u{00df}e \u{2014} \u{1f600}");
}

#[test]
fn chat_session_rejects_other_formats() {
    // A serialized token history is not a chat session.
    let mut s = LlamaSession::new();
    s.push_token(1);
    let bytes = s.to_bytes().unwrap();
    assert_eq!(
        OpenAICompatibleChatSession::from_bytes(&bytes).unwrap_err(),
        GenerationError::CorruptSession
    );
    // A chat word stream with an unknown role tag is rejected too.
    let mut chat = OpenAICompatibleChatSession::new();
    chat.push_message(ChatHistoryItem::new(MessageType::UserMessage, ""));
    let mut bytes = Vec::new();
    chat.write_to(&mut bytes).unwrap();
    // The first payload word is the role tag; make it invalid.
    bytes[11] = 99;
    assert_eq!(
        OpenAICompatibleChatSession::from_bytes(&bytes).unwrap_err(),
        GenerationError::CorruptSession
    );
}
