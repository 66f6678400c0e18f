use kalosm::dispatch::Dispatcher;
use kalosm::error::GenerationError;

#[test]
fn requests_come_out_in_submission_order() {
    let mut d: Dispatcher<&str> = Dispatcher::new();
    d.submit("first").unwrap();
    d.submit("second").unwrap();
    d.submit("third").unwrap();
    assert_eq!(d.pending(), 3);
    assert_eq!(d.take_next(), Some("first"));
    assert_eq!(d.take_next(), Some("second"));
    assert_eq!(d.take_next(), Some("third"));
    assert_eq!(d.take_next(), None);
}

#[test]
fn closed_queue_rejects_requests() {
    let mut d: Dispatcher<u32> = Dispatcher::new();
    d.submit(1).unwrap();
    d.close();
    assert!(d.is_closed());
    assert_eq!(d.submit(2), Err(GenerationError::ModelStopped));
    // What was queued before the close is still served.
    assert_eq!(d.take_next(), Some(1));
    assert_eq!(d.take_next(), None);
}

#[test]
fn two_requests_never_interleave() {
    // Each queued request carries its chunks; the worker drains the queue
    // one request at a time, so the tagged output is grouped by request.
    let mut d: Dispatcher<Vec<&str>> = Dispatcher::new();
    d.submit(vec!["a1", "a2"]).unwrap();
    d.submit(vec!["b1", "b2", "b3"]).unwrap();
    let mut schedule: Vec<(usize, String)> = Vec::new();
    let mut request = 0usize;
    while let Some(chunks) = d.take_next() {
        for c in chunks {
            schedule.push((request, c.to_string()));
        }
        request += 1;
    }
    let tags: Vec<usize> = schedule.iter().map(|e| e.0).collect();
    assert_eq!(tags, vec![0, 0, 1, 1, 1]);
    for pair in tags.windows(2) {
        assert!(pair[0] <= pair[1]);
    }
}
