use kalosm::model::{CollectingSink, Session, TokenSink};

#[test]
fn unit_session_is_trivial() {
    let s = ();
    assert!(s.to_bytes().unwrap().is_empty());
    assert_eq!(<() as Session>::tokens(&s), &[] as &[u32]);
    let _copy = s.try_clone().unwrap();
    let _restored = <() as Session>::from_bytes(&[]).unwrap();
}

#[test]
fn collecting_sink_concatenates_chunks() {
    let mut sink = CollectingSink::new();
    sink.push_chunk("Hello, ".to_string()).unwrap();
    sink.push_chunk("world!".to_string()).unwrap();
    assert_eq!(sink.text, "Hello, world!");
}
