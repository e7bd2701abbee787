use zhtta::request::Failure;
use zhtta::server::{Action, ConnectionEvent, Event, Lookup, Stream, WebServer};
use zhtta::static_file::{FileAction, FileEvent, StaticTransfer};

const OK: &[u8] = b"HTTP/1.1 200 OK\r\nContent-Type: text/html; charset=UTF-8\r\n\r\n";

fn server() -> WebServer {
    WebServer::new("127.0.0.1", 4414, "./www", 8, 2)
}

fn small_cache(cache: usize) -> WebServer {
    WebServer::new("127.0.0.1", 4414, "./www", 8, cache)
}

fn received(server: &mut WebServer, request: &[u8]) -> Action {
    let mut buffer = request.to_vec();
    buffer.resize(800, 0);
    server.run(Event::Connection(ConnectionEvent::Received { cwd: "/srv/www".to_string(), buffer }))
}

fn stream(id: u64, peer: &str) -> Stream {
    Stream { id, peer: Some(peer.to_string()) }
}

fn located(server: &mut WebServer, stream: Stream, path: &str, size: u64) -> Action {
    let lookup = Lookup { exists: true, is_dir: false, size };
    server.run(Event::Connection(ConnectionEvent::Located { stream, path: path.to_string(), lookup }))
}

/// Serves a file that holds `file`, and gives back what was sent and how much each read asked for.
fn serve(server: &mut WebServer, path: &str, file: &[u8]) -> (Vec<u8>, Vec<usize>) {
    let mut transfer = StaticTransfer::new(path.to_string());
    let mut sent = Vec::new();
    let mut reads = Vec::new();
    let mut event = FileEvent::Begin;
    let mut at = 0;
    loop {
        match server.respond_with_static_file(&mut transfer, event) {
            FileAction::Open => event = FileEvent::Opened { size: file.len() as u64 },
            FileAction::Continue { send, read } => {
                sent.extend(send);
                reads.push(read);
                event = FileEvent::Read(file[at..at + read].to_vec());
                at += read;
            }
            FileAction::Last { send } => {
                sent.extend(send);
                event = FileEvent::Sent;
            }
            FileAction::Finish { .. } => return (sent, reads),
            FileAction::Fail(failure) => panic!("{:?}", failure),
        }
    }
}

fn answer(page: &[u8]) -> Vec<u8> {
    [OK, page].concat()
}

#[test]
fn a_new_server_knows_its_address_and_directory() {
    let server = server();
    assert_eq!(server.address(), "127.0.0.1:4414");
    assert_eq!(server.www_dir(), "www");
    assert_eq!(
        server.greeting("127.0.0.1:4414"),
        "Zhtta Version 0.5 listening on 127.0.0.1:4414 (serving from: www)."
    );
}

#[test]
fn peers_are_named_by_their_address() {
    assert_eq!(WebServer::get_peer_name(&Some(stream(1, "10.0.0.1:80"))), "10.0.0.1:80");
    assert_eq!(WebServer::get_peer_name(&Some(Stream { id: 1, peer: None })), "");
    assert_eq!(WebServer::get_peer_name(&None), "");
}

#[test]
fn the_counter_page_counts_connections() {
    let mut server = server();
    for _ in 0..3 {
        assert!(matches!(
            server.run(Event::Connection(ConnectionEvent::Accepted)),
            Action::ReadRequest
        ));
    }
    match received(&mut server, b"GET / HTTP/1.1\r\n\r\n") {
        Action::Respond(response) => {
            assert_eq!(response, WebServer::respond_with_counter_page(3));
        }
        other => panic!("{:?}", other),
    }
}

#[test]
fn a_request_without_a_path_gets_no_answer() {
    let mut server = server();
    assert!(matches!(received(&mut server, b""), Action::Close));
    assert!(matches!(received(&mut server, b"GET /x"), Action::Close));
}

#[test]
fn a_request_that_cannot_be_read_ends_its_task() {
    let mut server = server();
    assert!(matches!(received(&mut server, b"GET /\xff x"), Action::Fail(Failure::NotUtf8)));
    assert!(matches!(received(&mut server, b"GET /\0 x"), Action::Fail(Failure::NulInPath)));
}

#[test]
fn the_path_of_a_request_is_looked_up() {
    let mut server = server();
    match received(&mut server, b"GET /a/../index.html HTTP/1.1\r\n\r\n") {
        Action::Locate(path) => assert_eq!(path, "/srv/www/index.html"),
        other => panic!("{:?}", other),
    }
    match received(&mut server, b"GET // HTTP/1.1\r\n\r\n") {
        Action::Locate(path) => assert_eq!(path, "/srv/www"),
        other => panic!("{:?}", other),
    }
}

#[test]
fn what_is_no_file_is_answered_with_an_error_page() {
    let mut server = server();
    for (exists, is_dir) in [(false, false), (true, true)] {
        let event = ConnectionEvent::Located {
            stream: stream(1, "10.0.0.1:80"),
            path: "/srv/www/x.shtml".to_string(),
            lookup: Lookup { exists, is_dir, size: 4096 },
        };
        match server.run(Event::Connection(event)) {
            Action::Respond(response) => assert_eq!(
                response,
                b"HTTP/1.1 404 Not Found\r\n\r\nCannot open: /srv/www/x.shtml".to_vec()
            ),
            other => panic!("{:?}", other),
        }
    }
    assert!(matches!(server.run(Event::Notified), Action::Idle));
}

#[test]
fn shtml_files_are_dynamic() {
    let mut server = server();
    match located(&mut server, stream(1, "10.0.0.1:80"), "/srv/www/now.shtml", 10) {
        Action::RespondDynamic(path) => assert_eq!(path, "/srv/www/now.shtml"),
        other => panic!("{:?}", other),
    }
    assert!(matches!(
        located(&mut server, stream(1, "10.0.0.1:80"), "/srv/www/.shtml", 10),
        Action::Notify { replaced: None }
    ));
}

#[test]
fn a_request_that_waits_is_served_on_its_stream() {
    let mut server = server();
    assert!(matches!(
        located(&mut server, stream(7, "10.0.0.1:80"), "/srv/www/a.html", 10),
        Action::Notify { replaced: None }
    ));
    match server.run(Event::Notified) {
        Action::Serve { stream, request, start } => {
            assert_eq!(stream, 7);
            assert!(start);
            assert_eq!(request.peer_name, "10.0.0.1:80");
            assert_eq!(request.path, "/srv/www/a.html");
            assert_eq!(request.size, 10);
        }
        other => panic!("{:?}", other),
    }
    assert!(matches!(server.run(Event::Notified), Action::Idle));
}

#[test]
fn requests_are_served_by_size_each_on_its_own_stream() {
    let mut server = server();
    for (id, peer, size) in [(1, "10.0.0.1:1", 30), (2, "10.0.0.1:2", 10), (3, "10.0.0.1:3", 20)] {
        located(&mut server, stream(id, peer), "/srv/www/a.html", size);
    }
    let mut served = Vec::new();
    while let Action::Serve { stream, request, .. } = server.run(Event::Notified) {
        served.push((stream, request.size));
    }
    assert_eq!(served, vec![(2, 10), (3, 20), (1, 30)]);
}

#[test]
fn a_second_client_of_the_same_name_takes_the_stream_of_the_first() {
    let mut server = server();
    located(&mut server, stream(1, "10.0.0.1:1"), "/a", 5);
    assert!(matches!(
        located(&mut server, stream(2, "10.0.0.1:1"), "/b", 6),
        Action::Notify { replaced: Some(1) }
    ));
    match server.run(Event::Notified) {
        Action::Serve { stream, request, .. } => {
            assert_eq!(stream, 2);
            assert_eq!(request.path, "/a");
        }
        other => panic!("{:?}", other),
    }
    assert!(matches!(server.run(Event::Notified), Action::Fail(Failure::NoStream)));
}

#[test]
fn a_peer_without_a_dotted_address_ends_its_task() {
    let mut server = server();
    let nameless = Stream { id: 2, peer: None };
    for (stream, expected) in [
        (stream(1, "[::1]:80"), None),
        (nameless, None),
        (stream(3, "[::1]:80"), Some(1)),
        (Stream { id: 4, peer: None }, Some(2)),
    ] {
        match located(&mut server, stream, "/srv/www/a.html", 10) {
            Action::Fail(failure) => {
                assert_eq!(failure, Failure::NoAddress { replaced: expected });
            }
            other => panic!("{:?}", other),
        }
    }
    assert!(matches!(server.run(Event::Notified), Action::Idle));
}

#[test]
fn a_request_is_queued_only_for_a_dotted_address() {
    let mut server = server();
    let mut queue = |id, peer: &str| {
        server.enqueue_static_file_request(Some(stream(id, peer)), "/f".to_string(), 1)
    };
    assert_eq!(queue(1, "10.0.0.1:80"), Ok(None));
    assert_eq!(queue(2, "10.0.0.1:80"), Ok(Some(1)));
    assert_eq!(queue(3, "[::1]:80"), Err(Failure::NoAddress { replaced: None }));
    assert_eq!(queue(4, "[::1]:80"), Err(Failure::NoAddress { replaced: Some(3) }));
    assert!(matches!(server.run(Event::Notified), Action::Serve { stream: 2, .. }));
}

#[test]
fn a_small_file_overtakes_the_queue_while_a_request_is_held_back() {
    let mut server = WebServer::new("127.0.0.1", 4414, ".", 1, 2);
    assert!(server.begin_serving(99));
    located(&mut server, stream(1, "10.0.0.1:80"), "/a", 10);
    match server.run(Event::Notified) {
        Action::Serve { stream, start, .. } => assert_eq!((stream, start), (1, false)),
        other => panic!("{:?}", other),
    }
    located(&mut server, stream(2, "10.0.0.2:80"), "/b", 20);
    located(&mut server, stream(3, "10.0.0.3:80"), "/c", 5);
    for (started, taken) in [(1, 3), (3, 2)] {
        match server.run(Event::Served) {
            Action::Start { stream } => assert_eq!(stream, started),
            other => panic!("{:?}", other),
        }
        match server.run(Event::Notified) {
            Action::Serve { stream, start, .. } => assert_eq!((stream, start), (taken, false)),
            other => panic!("{:?}", other),
        }
    }
}

#[test]
fn a_file_is_sent_in_chunks() {
    for (size, reads) in [
        (0, vec![0]),
        (1, vec![1]),
        (255, vec![255]),
        (256, vec![256]),
        (257, vec![256, 1]),
        (600, vec![256, 256, 88]),
    ] {
        let file: Vec<u8> = (0..size).map(|i| (i % 251) as u8).collect();
        let mut server = small_cache(0);
        assert_eq!(serve(&mut server, "/f", &file), (answer(&file), reads));
    }
}

#[test]
fn a_page_that_fits_is_kept_and_served_from_memory() {
    let mut server = server();
    let file: Vec<u8> = (0..1000).map(|i| (i % 256) as u8).collect();
    assert!(server.kept_page("/f").is_none());
    assert_eq!(serve(&mut server, "/f", &file).0, answer(&file));
    assert_eq!(server.kept_page("/f"), Some(&file));
    match located(&mut server, stream(1, "10.0.0.1:80"), "/f", 1000) {
        Action::ServeCached { path, start } => {
            assert_eq!(path, "/f");
            assert!(start);
        }
        other => panic!("{:?}", other),
    }
    assert_eq!(serve(&mut server, "/f", b"changed"), (answer(&file), vec![]));
    assert!(server.kept_page("/g").is_none());
}

#[test]
fn a_page_is_kept_only_once_it_was_sent() {
    for (cache, expected) in [(0, false), (1, true)] {
        let mut server = small_cache(cache);
        let mut transfer = StaticTransfer::new("/f".to_string());
        server.respond_with_static_file(&mut transfer, FileEvent::Opened { size: 1 });
        match server.respond_with_static_file(&mut transfer, FileEvent::Read(b"x".to_vec())) {
            FileAction::Last { send } => assert_eq!(send, b"x".to_vec()),
            other => panic!("{:?}", other),
        }
        assert!(server.kept_page("/f").is_none());
        match server.respond_with_static_file(&mut transfer, FileEvent::Sent) {
            FileAction::Finish { keeping } => assert_eq!(keeping, expected),
            other => panic!("{:?}", other),
        }
        assert_eq!(server.kept_page("/f").is_some(), expected);
    }
}

#[test]
fn a_page_from_memory_is_not_kept_anew() {
    let mut server = server();
    server.keep_page("/f", &b"page".to_vec());
    let mut transfer = StaticTransfer::new("/f".to_string());
    match server.respond_with_static_file(&mut transfer, FileEvent::Begin) {
        FileAction::Last { send } => assert_eq!(send, answer(b"page")),
        other => panic!("{:?}", other),
    }
    assert!(matches!(
        server.respond_with_static_file(&mut transfer, FileEvent::Sent),
        FileAction::Finish { keeping: false }
    ));
    assert_eq!(server.kept_page("/f"), Some(&b"page".to_vec()));
}

#[test]
fn all_pages_together_stay_within_the_cache() {
    let mut server = small_cache(1);
    assert!(server.keep_page("/a", &vec![1; 999999]));
    assert!(server.keep_page("/b", &vec![2; 1]));
    assert!(!server.keep_page("/c", &vec![3; 1]));
    assert!(server.kept_page("/c").is_none());
    assert!(server.keep_page("/empty", &Vec::new()));
    // A newer page of the same path counts in place of the older one.
    assert!(!server.keep_page("/b", &vec![4; 2]));
    assert_eq!(server.kept_page("/b"), Some(&vec![2; 1]));
    assert!(server.keep_page("/a", &vec![5; 10]));
    assert!(server.keep_page("/c", &vec![3; 999989]));
    assert!(!server.keep_page("/d", &vec![6; 1]));
}

#[test]
fn a_page_above_the_limit_is_not_kept() {
    let mut server = small_cache(0);
    serve(&mut server, "/f", b"x");
    assert!(server.kept_page("/f").is_none());
    serve(&mut server, "/empty", b"");
    assert_eq!(server.kept_page("/empty"), Some(&Vec::new()));

    let mut server = small_cache(1);
    assert!(!server.keep_page("/over", &vec![0; 1000001]));
    assert!(server.kept_page("/over").is_none());
    assert!(server.keep_page("/edge", &vec![0; 1000000]));
    assert!(server.kept_page("/edge").is_some());
}

#[test]
fn a_newer_page_takes_the_place_of_an_older_one_only() {
    let mut server = server();
    server.keep_page("/a", &b"one".to_vec());
    server.keep_page("/b", &b"two".to_vec());
    server.keep_page("/a", &b"three".to_vec());
    assert_eq!(server.kept_page("/a"), Some(&b"three".to_vec()));
    assert_eq!(server.kept_page("/b"), Some(&b"two".to_vec()));
}

#[test]
fn a_huge_cache_size_wraps_around() {
    let mut server = small_cache(usize::MAX);
    // The limit is 2^64 - 1000000, modulo 2^64.
    server.keep_page("/a", &b"one".to_vec());
    assert!(server.kept_page("/a").is_some());
    let mut server = small_cache(1 << 58);
    // 2^58 million is a multiple of 2^64.
    server.keep_page("/a", &b"one".to_vec());
    assert!(server.kept_page("/a").is_none());
}

#[test]
fn a_file_of_any_size_that_can_be_counted_is_opened() {
    let mut server = server();
    let mut transfer = StaticTransfer::new("/f".to_string());
    match server.respond_with_static_file(&mut transfer, FileEvent::Opened { size: u64::MAX }) {
        FileAction::Continue { send, read } => {
            assert_eq!(usize::BITS, 64);
            assert_eq!(send, OK.to_vec());
            assert_eq!(read, 256);
        }
        FileAction::Fail(failure) => {
            assert_eq!(failure, Failure::TooLarge);
            assert!(usize::BITS < 64);
        }
        other => panic!("{:?}", other),
    }
}

#[test]
fn permits_are_handed_out_in_turn() {
    let mut server = WebServer::new("127.0.0.1", 4414, ".", 2, 2);
    assert!(server.begin_serving(1));
    assert!(server.begin_serving(2));
    assert!(!server.begin_serving(3));
    assert!(!server.begin_serving(4));
    assert_eq!(server.end_serving(), Some(3));
    assert_eq!(server.end_serving(), Some(4));
    assert_eq!(server.end_serving(), None);
    assert!(server.begin_serving(5));
    assert!(!server.begin_serving(6));
}

#[test]
fn one_task_serves_one_request_after_another() {
    let mut server = WebServer::new("127.0.0.1", 4414, ".", 1, 2);
    for id in 1..4 {
        located(&mut server, stream(id, &format!("10.0.0.{}:80", id)), "/f", id);
    }
    match server.run(Event::Notified) {
        Action::Serve { stream, start, .. } => assert_eq!((stream, start), (1, true)),
        other => panic!("{:?}", other),
    }
    match server.run(Event::Notified) {
        Action::Serve { stream, start, .. } => assert_eq!((stream, start), (2, false)),
        other => panic!("{:?}", other),
    }
    assert!(matches!(server.run(Event::Served), Action::Start { stream: 2 }));
    assert!(matches!(server.run(Event::Served), Action::Idle));
    match server.run(Event::Notified) {
        Action::Serve { stream, start, .. } => assert_eq!((stream, start), (3, true)),
        other => panic!("{:?}", other),
    }
    assert!(matches!(server.run(Event::Served), Action::Idle));
    assert!(matches!(server.run(Event::Served), Action::Idle));
}

#[test]
fn kept_pages_take_permits_too() {
    let mut server = WebServer::new("127.0.0.1", 4414, ".", 1, 2);
    server.keep_page("/f", &b"page".to_vec());
    for (id, expected) in [(1, true), (2, false), (3, false)] {
        match located(&mut server, stream(id, "10.0.0.1:80"), "/f", 4) {
            Action::ServeCached { start, .. } => assert_eq!(start, expected),
            other => panic!("{:?}", other),
        }
    }
    assert!(matches!(server.run(Event::Served), Action::Start { stream: 2 }));
    assert!(matches!(server.run(Event::Served), Action::Start { stream: 3 }));
    assert!(matches!(server.run(Event::Served), Action::Idle));
}

#[test]
fn without_permits_every_task_waits() {
    for tasks in [0, -1, isize::MIN] {
        let mut server = WebServer::new("127.0.0.1", 4414, ".", tasks, 2);
        assert!(!server.begin_serving(1));
        assert!(matches!(server.run(Event::Served), Action::Idle));
        assert!(!server.begin_serving(2));
    }
}

#[test]
fn every_request_gives_a_notice_and_has_its_stream() {
    let mut server = server();
    located(&mut server, stream(100, "10.9.9.9:1"), "/old", 5);
    for id in 0..5 {
        let action = located(&mut server, stream(id, &format!("10.0.0.{}:1", id)), "/f", id);
        assert!(matches!(action, Action::Notify { replaced: None }));
    }
    let mut served = Vec::new();
    while let Action::Serve { stream, .. } = server.run(Event::Notified) {
        served.push(stream);
    }
    assert_eq!(served, vec![0, 1, 2, 3, 4, 100]);
}

#[test]
fn every_notice_finds_a_request() {
    let mut server = server();
    let mut given = 0;
    for (id, size) in [(1, 9), (2, 4), (3, 6), (4, 4)] {
        let action = located(&mut server, stream(id, &format!("10.0.0.{}:80", id)), "/f", size);
        assert!(matches!(action, Action::Notify { replaced: None }));
        given += 1;
        if id == 2 {
            assert!(matches!(server.run(Event::Notified), Action::Serve { stream: 2, .. }));
            given -= 1;
        }
    }
    for expected in [4, 3, 1] {
        match server.run(Event::Notified) {
            Action::Serve { stream, .. } => assert_eq!(stream, expected),
            other => panic!("{:?}", other),
        }
        given -= 1;
    }
    assert_eq!(given, 0);
    assert!(matches!(server.run(Event::Notified), Action::Idle));
}

#[test]
fn events_change_neither_settings_nor_pages() {
    let mut server = server();
    server.keep_page("/kept", &b"page".to_vec());
    server.run(Event::Connection(ConnectionEvent::Accepted));
    received(&mut server, b"GET /x HTTP/1.1");
    located(&mut server, stream(1, "10.0.0.1:80"), "/f", 3);
    server.run(Event::Notified);
    assert_eq!(server.address(), "127.0.0.1:4414");
    assert_eq!(server.www_dir(), "www");
    assert_eq!(server.kept_page("/kept"), Some(&b"page".to_vec()));
    assert!(server.kept_page("/f").is_none());
}
