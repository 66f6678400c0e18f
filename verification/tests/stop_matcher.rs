use kalosm::stop::StopMatcher;

#[test]
fn passes_text_through_without_stop_phrase() {
    let mut m = StopMatcher::new(None);
    let mut out = String::new();
    for chunk in ["The ", "capital ", "of ", "France"] {
        if let Some(t) = m.push(chunk) {
            out.push_str(&t);
        }
    }
    assert!(m.finish().is_none());
    assert_eq!(out, "The capital of France");
    assert!(!m.is_matched());
}

#[test]
fn empty_chunk_emits_nothing() {
    let mut m = StopMatcher::new(None);
    assert_eq!(m.push(""), None);
}

#[test]
fn think_tag_stream_stops_and_drops_tail() {
    // The stop phrase completes across three chunks; what follows is never
    // emitted.
    let mut m = StopMatcher::new(Some("</think>".to_string()));
    assert_eq!(m.push("<"), None);
    assert!(!m.is_matched());
    assert_eq!(m.push("/think"), None);
    assert!(!m.is_matched());
    assert_eq!(m.push(">"), None);
    assert!(m.is_matched());
    assert_eq!(m.push("done"), None);
    assert_eq!(m.finish(), None);
}

#[test]
fn text_before_stop_phrase_is_emitted() {
    let mut m = StopMatcher::new(Some("</think>".to_string()));
    assert_eq!(m.push("Hello<"), Some("Hello".to_string()));
    assert_eq!(m.push("/think>"), None);
    assert!(m.is_matched());
}

#[test]
fn matching_folds_ascii_case() {
    let mut m = StopMatcher::new(Some("</THINK>".to_string()));
    assert_eq!(m.push("ok</think>no"), Some("ok".to_string()));
    assert!(m.is_matched());
}

#[test]
fn unmatched_buffer_is_flushed_verbatim() {
    let mut m = StopMatcher::new(Some("ab".to_string()));
    assert_eq!(m.push("xA"), Some("x".to_string()));
    assert_eq!(m.finish(), Some("A".to_string()));
}

#[test]
fn disproven_buffer_folds_back_into_output() {
    let mut m = StopMatcher::new(Some("ab".to_string()));
    assert_eq!(m.push("a"), None);
    assert_eq!(m.push("xy"), Some("axy".to_string()));
    assert!(!m.is_matched());
}

#[test]
fn full_phrase_in_one_chunk() {
    let mut m = StopMatcher::new(Some("stop".to_string()));
    assert_eq!(m.push("before stopafter"), Some("before ".to_string()));
    assert!(m.is_matched());
}

#[test]
fn no_emitted_chunk_contains_the_phrase() {
    let mut m = StopMatcher::new(Some("ab".to_string()));
    let mut chunks: Vec<String> = Vec::new();
    for piece in ["xaybz", "a", "b"] {
        if let Some(t) = m.push(piece) {
            chunks.push(t);
        }
    }
    if let Some(t) = m.finish() {
        chunks.push(t);
    }
    for c in &chunks {
        assert!(!c.to_lowercase().contains("ab"));
    }
}
