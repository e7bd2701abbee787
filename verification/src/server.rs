//! The server as a state machine.
//!
//! The outside world reports events, and the server answers each with the action to take. What
//! it knows of the outside world it learns from events alone: it opens no file and no connection
//! itself. A stream is known by a number.

use vstd::hash_map::StringHashMap;
use vstd::prelude::*;

use crate::cache;
use crate::cache::PageCache;
use crate::pages;
use crate::path;
use crate::path::{extension, join, normalize};
use crate::queue;
use crate::queue::{RequestQueue, HTTP_Request};
use crate::request;
use crate::request::{requested_path, Failure};
use crate::semaphore::{permits, Semaphore, SemaphoreView};
use crate::text;
use crate::text::{contains_char, decimal};

verus! {

/// The name of the server.
pub const SERVER_NAME: &'static str = "Zhtta Version 0.5";

/// How many bytes a unit of the cache size stands for.
pub const CACHE_UNIT: usize = 1000000;

/// A connection to a client.
pub struct Stream {
    /// The number by which the outside world knows the connection.
    pub id: u64,
    /// The address of the client, if it could be told.
    pub peer: Option<String>,
}

/// What a `Stream` holds.
pub struct StreamView {
    pub id: u64,
    pub peer: Option<Seq<char>>,
}

impl View for Stream {
    type V = StreamView;

    open spec fn view(&self) -> StreamView {
        StreamView { id: self.id, peer: text::option_view(self.peer) }
    }
}

/// What a stream that may be missing holds.
pub open spec fn stream_view(stream: Option<Stream>) -> Option<StreamView> {
    match stream {
        Some(s) => Some(s@),
        None => None,
    }
}

/// The name of the peer of a stream: its address, or nothing if there is none.
pub open spec fn peer_name(stream: Option<StreamView>) -> Seq<char> {
    match stream {
        Some(s) => match s.peer {
            Some(p) => p,
            None => ""@,
        },
        None => ""@,
    }
}

/// What the file system tells of a path.
#[derive(Clone, Copy)]
pub struct Lookup {
    pub exists: bool,
    pub is_dir: bool,
    pub size: u64,
}

/// What happens to a connection.
pub enum ConnectionEvent {
    /// A client has connected.
    Accepted,
    /// The client has sent its request, while `cwd` is the working directory.
    Received { cwd: String, buffer: Vec<u8> },
    /// The path that the request names was looked up.
    Located { stream: Stream, path: String, lookup: Lookup },
}

/// What a `ConnectionEvent` holds.
pub enum ConnectionEventView {
    Accepted,
    Received { cwd: Seq<char>, buffer: Seq<u8> },
    Located { stream: StreamView, path: Seq<char>, lookup: Lookup },
}

impl View for ConnectionEvent {
    type V = ConnectionEventView;

    open spec fn view(&self) -> ConnectionEventView {
        match *self {
            ConnectionEvent::Accepted => ConnectionEventView::Accepted,
            ConnectionEvent::Received { cwd, buffer } => ConnectionEventView::Received {
                cwd: cwd@,
                buffer: buffer@,
            },
            ConnectionEvent::Located { stream, path, lookup } => ConnectionEventView::Located {
                stream: stream@,
                path: path@,
                lookup,
            },
        }
    }
}

/// What happens to the server.
pub enum Event {
    /// Something happens to a connection.
    Connection(ConnectionEvent),
    /// Notice is given that a request waits.
    Notified,
    /// A task that served a static file has ended.
    Served,
}

/// What an `Event` holds.
pub enum EventView {
    Connection(ConnectionEventView),
    Notified,
    Served,
}

impl View for Event {
    type V = EventView;

    open spec fn view(&self) -> EventView {
        match *self {
            Event::Connection(event) => EventView::Connection(event@),
            Event::Notified => EventView::Notified,
            Event::Served => EventView::Served,
        }
    }
}

/// What to do after an event.
#[derive(Debug)]
pub enum Action {
    /// Read the request of the client.
    ReadRequest,
    /// Close the connection without an answer.
    Close,
    /// End the task.
    Fail(Failure),
    /// Look up a path.
    Locate(String),
    /// Send an answer and close the connection.
    Respond(Vec<u8>),
    /// Expand the dynamic page in a file, and send it.
    RespondDynamic(String),
    /// Send the page that is kept for a path, in a task of its own, which starts now or once its
    /// stream is named by `Start`.
    ServeCached { path: String, start: bool },
    /// Give notice that a request waits, and close the stream whose place its stream has taken.
    Notify { replaced: Option<u64> },
    /// Serve a request on a stream, in a task of its own, which starts now or once its stream is
    /// named by `Start`. Until it starts, no further notice is taken.
    Serve { stream: u64, request: HTTP_Request, start: bool },
    /// Start the task that waits to serve a stream.
    Start { stream: u64 },
    /// Do nothing.
    Idle,
}

/// What an `Action` holds.
pub enum ActionView {
    ReadRequest,
    Close,
    Fail(Failure),
    Locate(Seq<char>),
    Respond(Seq<u8>),
    RespondDynamic(Seq<char>),
    ServeCached { path: Seq<char>, start: bool },
    Notify { replaced: Option<u64> },
    Serve { stream: u64, request: queue::RequestView, start: bool },
    Start { stream: u64 },
    Idle,
}

impl View for Action {
    type V = ActionView;

    open spec fn view(&self) -> ActionView {
        match *self {
            Action::ReadRequest => ActionView::ReadRequest,
            Action::Close => ActionView::Close,
            Action::Fail(failure) => ActionView::Fail(failure),
            Action::Locate(path) => ActionView::Locate(path@),
            Action::Respond(response) => ActionView::Respond(response@),
            Action::RespondDynamic(path) => ActionView::RespondDynamic(path@),
            Action::ServeCached { path, start } => ActionView::ServeCached { path: path@, start },
            Action::Notify { replaced } => ActionView::Notify { replaced },
            Action::Serve { stream, request, start } => ActionView::Serve {
                stream,
                request: request@,
                start,
            },
            Action::Start { stream } => ActionView::Start { stream },
            Action::Idle => ActionView::Idle,
        }
    }
}

/// The server.
pub struct WebServer {
    ip: String,
    port: usize,
    www_dir_path: String,
    request_queue: RequestQueue,
    stream_map: StringHashMap<u64>,
    visitor_count: usize,
    req_handling_tasks: Semaphore,
    cached_pages: PageCache,
    cached_threshold: usize,
}

/// The state of a `WebServer`.
pub struct ServerView {
    /// The address to listen on.
    pub ip: Seq<char>,
    /// The port to listen on.
    pub port: usize,
    /// The directory that is served, in normal form.
    pub www_dir_path: Seq<char>,
    /// The requests that wait, in the order in which they will be served.
    pub queue: Seq<queue::RequestView>,
    /// The streams of the requests that wait, by peer name.
    pub streams: Map<Seq<char>, u64>,
    /// How many connections were made.
    pub visitor_count: usize,
    /// The permits for tasks that serve static files.
    pub tasks: SemaphoreView,
    /// The pages that are kept, by the path of their file.
    pub cached_pages: Map<Seq<char>, Seq<u8>>,
    /// How many bytes the pages that are kept may hold together.
    pub cached_threshold: usize,
}

impl ServerView {
    /// Every request that waits comes from a dotted address, the permits add up, and the pages
    /// that are kept are together not larger than the cache.
    pub open spec fn wf(self) -> bool {
        &&& queue::all_dotted(self.queue)
        &&& self.tasks.wf()
        &&& self.cached_pages.dom().finite()
        &&& cache::total(self.cached_pages) <= self.cached_threshold
    }

    /// A server that has not started yet.
    pub open spec fn initial(
        ip: Seq<char>,
        port: usize,
        www_dir: Seq<char>,
        tasks: int,
        cache: usize,
    ) -> ServerView {
        ServerView {
            ip,
            port,
            www_dir_path: path::normalize_spec(www_dir),
            queue: seq![],
            streams: Map::empty(),
            visitor_count: 0,
            tasks: SemaphoreView { capacity: permits(tasks), held: 0, waiting: seq![] },
            cached_pages: Map::empty(),
            cached_threshold: cache.wrapping_mul(CACHE_UNIT),
        }
    }

    /// The action when a client has sent its request. The path `/` is that of the counter page.
    pub open spec fn received(self, cwd: Seq<char>, buffer: Seq<u8>) -> ActionView {
        match request::requested_path_spec(buffer) {
            Err(failure) => ActionView::Fail(failure),
            Ok(None) => ActionView::Close,
            Ok(Some(path)) => if path == "./"@ {
                ActionView::Respond(pages::counter_page(self.visitor_count as nat))
            } else {
                ActionView::Locate(path::join_spec(cwd, path))
            },
        }
    }

    /// The stream that is kept for a peer, if there is one.
    pub open spec fn stream_of(self, peer_name: Seq<char>) -> Option<u64> {
        if self.streams.contains_key(peer_name) {
            Some(self.streams[peer_name])
        } else {
            None
        }
    }

    /// How many static files are served at the moment: the task of each holds one permit.
    pub open spec fn serving(self) -> nat {
        self.tasks.held
    }

    /// Whether one more static file can be served at once.
    pub open spec fn has_permit(self) -> bool {
        self.tasks.held < self.tasks.capacity
    }

    /// The server once the task that serves a static file on a stream has its permit, or waits
    /// for it.
    pub open spec fn began(self, stream: u64) -> ServerView {
        ServerView { tasks: self.tasks.acquired(stream), ..self }
    }

    /// The server once a task that served a static file has given back its permit.
    pub open spec fn ended(self) -> ServerView {
        ServerView { tasks: self.tasks.released(), ..self }
    }

    /// The server and the action after a task that served a static file has ended: the one that
    /// has waited longest starts.
    pub open spec fn served(self) -> (ServerView, ActionView) {
        if self.serving() == 0 {
            (self, ActionView::Idle)
        } else if self.tasks.waiting.len() > 0 {
            (self.ended(), ActionView::Start { stream: self.tasks.waiting[0] })
        } else {
            (self.ended(), ActionView::Idle)
        }
    }

    /// The server once a stream is kept under the name of its peer.
    pub open spec fn stream_kept(self, stream: StreamView) -> ServerView {
        ServerView { streams: self.streams.insert(peer_name(Some(stream)), stream.id), ..self }
    }

    /// The server once a request for a static file waits and its stream is kept.
    pub open spec fn enqueued(
        self,
        stream: StreamView,
        path: Seq<char>,
        size: u64,
    ) -> ServerView {
        let peer_name = peer_name(Some(stream));
        ServerView {
            queue: queue::enqueued(self.queue, queue::RequestView { peer_name, path, size }),
            ..self.stream_kept(stream)
        }
    }

    /// The server and the action once a path was looked up: an error page for what is no file, a
    /// dynamic page for an `shtml` file, and else a static page, kept or not. Where the page is not
    /// kept, the stream is, before the address of its peer is looked at.
    pub open spec fn located(
        self,
        stream: StreamView,
        path: Seq<char>,
        lookup: Lookup,
    ) -> (ServerView, ActionView) {
        if !lookup.exists || lookup.is_dir {
            (self, ActionView::Respond(pages::error_page(path)))
        } else if path::extension_spec(path) == Some("shtml"@) {
            (self, ActionView::RespondDynamic(path))
        } else if self.cached_pages.contains_key(path) {
            (
                self.began(stream.id),
                ActionView::ServeCached { path, start: self.has_permit() },
            )
        } else if !queue::is_dotted(peer_name(Some(stream))) {
            let replaced = self.stream_of(peer_name(Some(stream)));
            (self.stream_kept(stream), ActionView::Fail(Failure::NoAddress { replaced }))
        } else {
            (
                self.enqueued(stream, path, lookup.size),
                ActionView::Notify { replaced: self.stream_of(peer_name(Some(stream))) },
            )
        }
    }

    /// The server and the action after something has happened to a connection.
    pub open spec fn listened(self, event: ConnectionEventView) -> (ServerView, ActionView) {
        match event {
            ConnectionEventView::Accepted => (
                ServerView { visitor_count: self.visitor_count.wrapping_add(1), ..self },
                ActionView::ReadRequest,
            ),
            ConnectionEventView::Received { cwd, buffer } => (self, self.received(cwd, buffer)),
            ConnectionEventView::Located { stream, path, lookup } => self.located(
                stream,
                path,
                lookup,
            ),
        }
    }

    /// The server and the action after notice that a request waits: the first request is served
    /// on the stream that is kept for its peer, by a task that takes one permit.
    pub open spec fn dequeued(self) -> (ServerView, ActionView) {
        if self.queue.len() == 0 {
            (self, ActionView::Idle)
        } else {
            let request = self.queue[0];
            let rest = ServerView {
                queue: self.queue.skip(1),
                streams: self.streams.remove(request.peer_name),
                ..self
            };
            if self.streams.contains_key(request.peer_name) {
                let stream = self.streams[request.peer_name];
                (
                    rest.began(stream),
                    ActionView::Serve { stream, request, start: self.has_permit() },
                )
            } else {
                (rest, ActionView::Fail(Failure::NoStream))
            }
        }
    }

    /// The server and the action after an event.
    pub open spec fn stepped(self, event: EventView) -> (ServerView, ActionView) {
        match event {
            EventView::Connection(event) => self.listened(event),
            EventView::Notified => self.dequeued(),
            EventView::Served => self.served(),
        }
    }

    /// Whether a page is kept: together with the pages of all other paths it is not larger than
    /// the cache.
    pub open spec fn keeps(self, path: Seq<char>, page: Seq<u8>) -> bool {
        cache::total(self.cached_pages.remove(path)) + page.len() <= self.cached_threshold
    }

    /// The server once a page was read and sent as a whole: it is kept, if there is room for it.
    pub open spec fn kept(self, path: Seq<char>, page: Seq<u8>) -> ServerView {
        if self.keeps(path, page) {
            ServerView { cached_pages: self.cached_pages.insert(path, page), ..self }
        } else {
            self
        }
    }
}

impl View for WebServer {
    type V = ServerView;

    closed spec fn view(&self) -> ServerView {
        ServerView {
            ip: self.ip@,
            port: self.port,
            www_dir_path: self.www_dir_path@,
            queue: self.request_queue@,
            streams: self.stream_map@,
            visitor_count: self.visitor_count,
            tasks: self.req_handling_tasks@,
            cached_pages: self.cached_pages@,
            cached_threshold: self.cached_threshold,
        }
    }
}

impl WebServer {
    /// A server for the directory `www_dir`, which serves `tasks` static files at a time, none if
    /// that is negative, and keeps pages of `cache` million bytes together.
    pub fn new(ip: &str, port: usize, www_dir: &str, tasks: isize, cache: usize) -> (server:
        WebServer)
        requires
            !www_dir@.contains('\0'),
        ensures
            server@ == ServerView::initial(ip@, port, www_dir@, tasks as int, cache),
            cache * CACHE_UNIT <= usize::MAX ==> server@.cached_threshold == cache * CACHE_UNIT,
            server@.wf(),
    {
        proof {
            if cache * CACHE_UNIT <= usize::MAX {
                vstd::arithmetic::div_mod::lemma_small_mod(
                    (cache * CACHE_UNIT) as nat,
                    (usize::MAX + 1) as nat,
                );
            }
        }
        WebServer {
            ip: ip.to_owned(),
            port,
            www_dir_path: normalize(www_dir),
            request_queue: RequestQueue::new(),
            stream_map: StringHashMap::new(),
            visitor_count: 0,
            req_handling_tasks: Semaphore::new(tasks),
            cached_pages: PageCache::new(),
            cached_threshold: cache.wrapping_mul(CACHE_UNIT),
        }
    }

    /// The address to listen on, with its port.
    pub fn address(&self) -> (address: String)
        ensures
            address@ == self@.ip + ":"@ + text::decimal_spec(self@.port as nat),
    {
        let mut address: String = self.ip.clone();
        address.append(":");
        address.append(decimal(self.port).as_str());
        address
    }

    /// The directory that is served.
    pub fn www_dir(&self) -> (dir: &str)
        ensures
            dir@ == self@.www_dir_path,
    {
        self.www_dir_path.as_str()
    }

    /// What the server says when it starts to listen on an address.
    pub fn greeting(&self, address: &str) -> (line: String)
        ensures
            line@ == SERVER_NAME@ + " listening on "@ + address@ + " (serving from: "@
                + self@.www_dir_path + ")."@,
    {
        let mut line: String = SERVER_NAME.to_owned();
        line.append(" listening on ");
        line.append(address);
        line.append(" (serving from: ");
        line.append(self.www_dir_path.as_str());
        line.append(").");
        line
    }

    /// Takes one step: what to do after an event.
    pub fn run(&mut self, event: Event) -> (action: Action)
        requires
            old(self)@.wf(),
        ensures
            (final(self)@, action@) == old(self)@.stepped(event@),
            final(self)@.wf(),
    {
        match event {
            Event::Connection(event) => self.listen(event),
            Event::Notified => self.dequeue_static_file_request(),
            Event::Served => self.finish_serving(),
        }
    }

    /// What to do after something has happened to a connection.
    pub fn listen(&mut self, event: ConnectionEvent) -> (action: Action)
        requires
            old(self)@.wf(),
        ensures
            (final(self)@, action@) == old(self)@.listened(event@),
            final(self)@.wf(),
    {
        match event {
            ConnectionEvent::Accepted => {
                self.visitor_count = self.visitor_count.wrapping_add(1);
                Action::ReadRequest
            },
            ConnectionEvent::Received { cwd, buffer } => {
                match requested_path(buffer.as_slice()) {
                    Err(failure) => Action::Fail(failure),
                    Ok(None) => Action::Close,
                    Ok(Some(path)) => if path == "./".to_owned() {
                        Action::Respond(WebServer::respond_with_counter_page(self.visitor_count))
                    } else {
                        Action::Locate(join(cwd.as_str(), path.as_str()))
                    },
                }
            },
            ConnectionEvent::Located { stream, path, lookup } => self.route(stream, path, lookup),
        }
    }

    /// What to do after a task that served a static file has ended.
    fn finish_serving(&mut self) -> (action: Action)
        requires
            old(self)@.wf(),
        ensures
            (final(self)@, action@) == old(self)@.served(),
            final(self)@.wf(),
    {
        if self.req_handling_tasks.held() == 0 {
            return Action::Idle;
        }
        match self.end_serving() {
            Some(stream) => Action::Start { stream },
            None => Action::Idle,
        }
    }

    /// What to do once the path that a request names was looked up.
    fn route(&mut self, stream: Stream, path: String, lookup: Lookup) -> (action: Action)
        requires
            old(self)@.wf(),
        ensures
            (final(self)@, action@) == old(self)@.located(stream@, path@, lookup),
            final(self)@.wf(),
    {
        let ext = match extension(path.as_str()) {
            Some(e) => e,
            None => String::new(),
        };
        let dynamic = ext == "shtml".to_owned();
        proof {
            reveal_strlit("shtml");
            assert(Seq::<char>::empty().len() != "shtml"@.len());
        }
        if !lookup.exists || lookup.is_dir {
            Action::Respond(WebServer::respond_with_error_page(path.as_str()))
        } else if dynamic {
            Action::RespondDynamic(path)
        } else if self.cached_pages.contains(path.as_str()) {
            let start = self.begin_serving(stream.id);
            Action::ServeCached { path, start }
        } else {
            match self.enqueue_static_file_request(Some(stream), path, lookup.size) {
                Ok(replaced) => Action::Notify { replaced },
                Err(failure) => Action::Fail(failure),
            }
        }
    }

    /// Keeps a stream and puts the request that came on it in the queue, if its peer has a dotted
    /// address. Gives back the stream that was kept for the same peer before, if there was one.
    pub fn enqueue_static_file_request(
        &mut self,
        stream: Option<Stream>,
        path: String,
        size: u64,
    ) -> (queued: Result<Option<u64>, Failure>)
        requires
            old(self)@.wf(),
            stream is Some,
        ensures
            ({
                let replaced = old(self)@.stream_of(peer_name(stream_view(stream)));
                if queue::is_dotted(peer_name(stream_view(stream))) {
                    &&& queued == Ok::<Option<u64>, Failure>(replaced)
                    &&& final(self)@ == old(self)@.enqueued(stream_view(stream)->0, path@, size)
                } else {
                    &&& queued == Err::<Option<u64>, Failure>(Failure::NoAddress { replaced })
                    &&& final(self)@ == old(self)@.stream_kept(stream_view(stream)->0)
                }
            }),
            final(self)@.wf(),
    {
        let peer_name = WebServer::get_peer_name(&stream);
        let replaced = self.kept_stream(peer_name.as_str());
        if let Some(stream) = stream {
            self.stream_map.insert(peer_name.clone(), stream.id);
        }
        if !contains_char(peer_name.as_str(), '.') {
            return Err(Failure::NoAddress { replaced });
        }
        self.request_queue.insert(HTTP_Request { peer_name, path, size });
        Ok(replaced)
    }

    /// The stream that is kept for a peer, if there is one.
    fn kept_stream(&self, peer_name: &str) -> (stream: Option<u64>)
        ensures
            stream == self@.stream_of(peer_name@),
    {
        match self.stream_map.get(peer_name) {
            Some(stream) => Some(*stream),
            None => None,
        }
    }

    /// What to do after notice that a request waits.
    pub fn dequeue_static_file_request(&mut self) -> (action: Action)
        requires
            old(self)@.wf(),
        ensures
            (final(self)@, action@) == old(self)@.dequeued(),
            final(self)@.wf(),
    {
        match self.request_queue.shift() {
            None => Action::Idle,
            Some(request) => {
                let stream = self.kept_stream(request.peer_name.as_str());
                self.stream_map.remove(request.peer_name.as_str());
                match stream {
                    Some(stream) => {
                        let start = self.begin_serving(stream);
                        Action::Serve { stream, request, start }
                    },
                    None => Action::Fail(Failure::NoStream),
                }
            },
        }
    }

    /// The name of the peer of a stream.
    pub fn get_peer_name(stream: &Option<Stream>) -> (name: String)
        ensures
            name@ == peer_name(stream_view(*stream)),
            match *stream {
                Some(s) => match s.peer {
                    Some(p) => name@ == p@,
                    None => name@.len() == 0,
                },
                None => name@.len() == 0,
            },
    {
        proof {
            reveal_strlit("");
        }
        match stream {
            Some(s) => match &s.peer {
                Some(p) => p.clone(),
                None => "".to_owned(),
            },
            None => "".to_owned(),
        }
    }

    /// The page that is kept for a path, if there is one.
    pub fn kept_page(&self, path: &str) -> (page: Option<&Vec<u8>>)
        ensures
            match page {
                Some(p) => self@.cached_pages.contains_key(path@) && p@
                    == self@.cached_pages[path@],
                None => !self@.cached_pages.contains_key(path@),
            },
    {
        self.cached_pages.find(path)
    }

    /// Keeps a page for a path, if there is room for it, and tells whether it does.
    pub fn keep_page(&mut self, path: &str, page: &Vec<u8>) -> (kept: bool)
        requires
            old(self)@.wf(),
        ensures
            final(self)@ == old(self)@.kept(path@, page@),
            kept == old(self)@.keeps(path@, page@),
            final(self)@.wf(),
    {
        proof {
            if self@.keeps(path@, page@) {
                cache::lemma_total_insert(self@.cached_pages, path@, page@);
            }
        }
        let others = self.cached_pages.others(path);
        if others <= self.cached_threshold && page.len() <= self.cached_threshold - others {
            let mut copy: Vec<u8> = Vec::new();
            copy.extend_from_slice(page.as_slice());
            assert(copy@ =~= page@);
            let mut pages = PageCache::new();
            std::mem::swap(&mut self.cached_pages, &mut pages);
            self.cached_pages = pages.with_page(path.to_owned(), copy);
            true
        } else {
            false
        }
    }

    /// Takes the permit for the task that serves a static file on a stream: the task starts now,
    /// or waits until `end_serving` names its stream.
    pub fn begin_serving(&mut self, stream: u64) -> (start: bool)
        requires
            old(self)@.wf(),
        ensures
            final(self)@ == old(self)@.began(stream),
            final(self)@.wf(),
            start == old(self)@.has_permit(),
            final(self)@.serving() == old(self)@.serving() + (if start {
                1int
            } else {
                0
            }),
    {
        self.req_handling_tasks.acquire(stream)
    }

    /// Gives back the permit of a task that served a static file, and names the stream of the task
    /// that starts in its place, if one waits.
    pub fn end_serving(&mut self) -> (next: Option<u64>)
        requires
            old(self)@.wf(),
            old(self)@.serving() > 0,
        ensures
            final(self)@ == old(self)@.ended(),
            final(self)@.wf(),
            next == (if old(self)@.tasks.waiting.len() > 0 {
                Some(old(self)@.tasks.waiting[0])
            } else {
                None
            }),
            final(self)@.serving() == old(self)@.serving() - (if next is None {
                1int
            } else {
                0
            }),
    {
        self.req_handling_tasks.release()
    }
}

/// The views of the events hold all that the events do.
pub proof fn law_events_are_seen_in_full(
    id: u64,
    peer: Option<String>,
    cwd: String,
    buffer: Vec<u8>,
    path: String,
    lookup: Lookup,
)
    ensures
        Event::Notified@ == EventView::Notified,
        Event::Served@ == EventView::Served,
        Event::Connection(ConnectionEvent::Accepted)@ == EventView::Connection(
            ConnectionEventView::Accepted,
        ),
        Event::Connection(ConnectionEvent::Received { cwd, buffer })@ == EventView::Connection(
            ConnectionEventView::Received { cwd: cwd@, buffer: buffer@ },
        ),
        Event::Connection(
            ConnectionEvent::Located { stream: Stream { id, peer }, path, lookup },
        )@ == EventView::Connection(
            ConnectionEventView::Located {
                stream: StreamView {
                    id,
                    peer: match peer {
                        Some(p) => Some(p@),
                        None => None,
                    },
                },
                path: path@,
                lookup,
            },
        ),
{
}

/// The views of the actions hold all that the actions do: one that is seen is the one that is
/// taken.
pub proof fn law_actions_are_seen_in_full(
    failure: Failure,
    path: String,
    bytes: Vec<u8>,
    start: bool,
    replaced: Option<u64>,
    stream: u64,
    request: HTTP_Request,
)
    ensures
        Action::ReadRequest@ == ActionView::ReadRequest,
        Action::Close@ == ActionView::Close,
        Action::Idle@ == ActionView::Idle,
        Action::Fail(failure)@ == ActionView::Fail(failure),
        Action::Locate(path)@ == ActionView::Locate(path@),
        Action::Respond(bytes)@ == ActionView::Respond(bytes@),
        Action::RespondDynamic(path)@ == ActionView::RespondDynamic(path@),
        (Action::ServeCached { path, start })@ == (ActionView::ServeCached { path: path@, start }),
        (Action::Notify { replaced })@ == (ActionView::Notify { replaced }),
        (Action::Start { stream })@ == (ActionView::Start { stream }),
        (Action::Serve { stream, request, start })@ == (ActionView::Serve {
            stream,
            request: queue::RequestView {
                peer_name: request.peer_name@,
                path: request.path@,
                size: request.size,
            },
            start,
        }),
{
}

} // verus!
