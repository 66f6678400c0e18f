use kalosm::token_stream::{
    encode_prompt, find_stop_token, split_new_text, tokenizer_from_bytes, TokenOutputStream,
};

const TOKENIZER_JSON: &str = r#"{
  "version": "1.0",
  "model": {
    "type": "WordLevel",
    "vocab": {
      "[UNK]": 0,
      "hello": 1,
      "world": 2,
      "</s>": 3,
      "the": 4,
      "capital": 5
    },
    "unk_token": "[UNK]"
  },
  "pre_tokenizer": { "type": "Whitespace" }
}"#;

#[test]
fn encode_and_stream_round_trip() {
    let tokenizer = tokenizer_from_bytes(TOKENIZER_JSON.as_bytes()).unwrap();
    let ids = encode_prompt(&tokenizer, "hello world").unwrap();
    assert_eq!(ids.len(), 2);

    // Feeding the tokens one at a time confirms the whole text, in order.
    let mut stream = TokenOutputStream::new();
    let mut out = String::new();
    for &id in &ids {
        if let Some(chunk) = stream.next_token(&tokenizer, id).unwrap() {
            out.push_str(&chunk);
        }
    }
    assert_eq!(out, "hello world");
    assert_eq!(stream.tokens(), ids.as_slice());
}

#[test]
fn unknown_words_map_to_the_unknown_token() {
    let tokenizer = tokenizer_from_bytes(TOKENIZER_JSON.as_bytes()).unwrap();
    let ids = encode_prompt(&tokenizer, "hello stranger").unwrap();
    assert_eq!(ids[0], 1);
    assert_eq!(ids[1], 0);
}

#[test]
fn stop_token_lookup_takes_the_first_known_spelling() {
    let tokenizer = tokenizer_from_bytes(TOKENIZER_JSON.as_bytes()).unwrap();
    let spellings = vec![
        "<|end_of_text|>".to_string(),
        "</s>".to_string(),
        "<|endoftext|>".to_string(),
    ];
    assert_eq!(find_stop_token(&tokenizer, &spellings), Some(3));
    let unknown = vec!["<nothing>".to_string()];
    assert_eq!(find_stop_token(&tokenizer, &unknown), None);
}

#[test]
fn malformed_tokenizer_bytes_are_rejected() {
    assert!(tokenizer_from_bytes(b"not a tokenizer").is_err());
}

#[test]
fn split_confirms_only_complete_text() {
    // Nothing new: nothing confirmed.
    assert_eq!(split_new_text("abc", 3), None);
    assert_eq!(split_new_text("ab", 3), None);
    // New complete text past the confirmed prefix.
    assert_eq!(split_new_text("abcde", 3), Some("de".to_string()));
    assert_eq!(split_new_text("abc", 0), Some("abc".to_string()));
    // A window ending in an incomplete character stays pending.
    let pending = format!("ab{}", char::from_u32(0xFFFD).unwrap());
    assert_eq!(split_new_text(&pending, 0), None);
}
