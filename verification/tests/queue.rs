use zhtta::queue::{is_priority, HTTP_Request, RequestQueue};

fn request(peer_name: &str, size: u64) -> HTTP_Request {
    HTTP_Request { peer_name: peer_name.to_string(), path: format!("/{}", size), size }
}

fn queue_of(requests: &[(&str, u64)]) -> RequestQueue {
    let mut queue = RequestQueue::new();
    for (peer_name, size) in requests {
        queue.insert(request(peer_name, *size));
    }
    queue
}

fn drained(mut queue: RequestQueue) -> Vec<(String, u64)> {
    let mut out = Vec::new();
    while let Some(r) = queue.shift() {
        out.push((r.peer_name, r.size));
    }
    out
}

fn sizes(queue: RequestQueue) -> Vec<u64> {
    drained(queue).into_iter().map(|(_, size)| size).collect()
}

#[test]
fn two_networks_have_priority() {
    assert!(is_priority("128.143.69.2:4000"));
    assert!(is_priority("137.54.1.1:80"));
    assert!(!is_priority("128.54.1.1:80"));
    assert!(!is_priority("137.143.1.1:80"));
    assert!(!is_priority("10.0.0.1:80"));
    assert!(!is_priority("1128.143.1.1:80"));
    assert!(!is_priority("128.1430.1.1:80"));
    assert!(is_priority("128.143"));
    assert!(!is_priority("128.143:80"));
}

#[test]
fn an_empty_queue_gives_nothing() {
    let mut queue = RequestQueue::new();
    assert_eq!(queue.len(), 0);
    assert!(queue.shift().is_none());
}

#[test]
fn small_files_are_served_first() {
    let queue = queue_of(&[("10.0.0.1:1", 30), ("10.0.0.1:2", 10), ("10.0.0.1:3", 20)]);
    assert_eq!(queue.len(), 3);
    assert_eq!(sizes(queue), vec![10, 20, 30]);
}

#[test]
fn equal_files_are_served_in_the_order_of_their_requests() {
    let queue = queue_of(&[("1.1.1.1:1", 5), ("1.1.1.1:2", 5), ("1.1.1.1:3", 4), ("1.1.1.1:4", 5)]);
    let names: Vec<String> = drained(queue).into_iter().map(|(name, _)| name).collect();
    assert_eq!(names, vec!["1.1.1.1:3", "1.1.1.1:1", "1.1.1.1:2", "1.1.1.1:4"]);
}

#[test]
fn priority_joins_the_front() {
    let queue = queue_of(&[
        ("128.143.0.1:1", 10),
        ("10.0.0.1:2", 20),
        ("137.54.0.1:3", 100),
        ("128.143.0.1:4", 50),
    ]);
    assert_eq!(
        drained(queue),
        vec![
            ("128.143.0.1:1".to_string(), 10),
            ("128.143.0.1:4".to_string(), 50),
            ("137.54.0.1:3".to_string(), 100),
            ("10.0.0.1:2".to_string(), 20),
        ]
    );
}

#[test]
fn priority_behind_an_ordinary_front_goes_by_size_alone() {
    let queue = queue_of(&[("10.0.0.1:1", 10), ("10.0.0.1:2", 20), ("128.143.0.1:3", 15)]);
    assert_eq!(sizes(queue), vec![10, 15, 20]);
    let queue = queue_of(&[("10.0.0.1:1", 10), ("128.143.0.1:3", 100)]);
    assert_eq!(sizes(queue), vec![10, 100]);
}

#[test]
fn an_ordinary_request_passes_larger_files_only() {
    let queue = queue_of(&[
        ("128.143.0.1:1", 10),
        ("10.0.0.1:2", 20),
        ("128.143.0.1:3", 100),
        ("10.0.0.1:4", 15),
    ]);
    // 15 passes 20 and 100, and stops behind 10.
    assert_eq!(sizes(queue), vec![10, 15, 100, 20]);
}

#[test]
fn no_request_is_lost_or_doubled() {
    let queue = queue_of(&[("1.2.3.4:1", 7), ("137.54.9.9:2", 3), ("1.2.3.4:3", 7), ("1.2.3.4:4", 0)]);
    assert_eq!(queue.len(), 4);
    let mut out = drained(queue);
    out.sort();
    assert_eq!(
        out,
        vec![
            ("1.2.3.4:1".to_string(), 7),
            ("1.2.3.4:3".to_string(), 7),
            ("1.2.3.4:4".to_string(), 0),
            ("137.54.9.9:2".to_string(), 3),
        ]
    );
}
