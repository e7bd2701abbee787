//! What holds of the server as a whole, whatever happens to it.

use vstd::multiset::Multiset;
use vstd::prelude::*;

use crate::cache;
use crate::pages;
use crate::path;
use crate::queue;
use crate::queue::RequestView;
use crate::request;
use crate::request::Failure;
use crate::semaphore::SemaphoreView;
use crate::server::{
    peer_name, ActionView, ConnectionEventView, EventView, Lookup, ServerView, StreamView,
};
use crate::static_file::{law_transfers_stay_within_the_cache, FileEventView, TransferView};
use crate::text;

verus! {

/// The server after a sequence of events.
pub open spec fn after(server: ServerView, events: Seq<EventView>) -> ServerView
    decreases events.len(),
{
    if events.len() == 0 {
        server
    } else {
        after(server, events.drop_last()).stepped(events.last()).0
    }
}

/// The action after event number `i` of a sequence.
pub open spec fn action_at(server: ServerView, events: Seq<EventView>, i: int) -> ActionView {
    after(server, events.take(i)).stepped(events[i]).1
}

/// How many of a sequence of events are connections.
pub open spec fn connections(events: Seq<EventView>) -> nat {
    events.filter(
        |e: EventView| e == EventView::Connection(ConnectionEventView::Accepted),
    ).len()
}

/// How many of a sequence of events are notices that a request waits.
pub open spec fn notices_taken(events: Seq<EventView>) -> nat {
    events.filter(|e: EventView| e == EventView::Notified).len()
}

/// How many times a sequence of events makes the server give notice that a request waits.
pub open spec fn notices_given(server: ServerView, events: Seq<EventView>) -> nat
    decreases events.len(),
{
    if events.len() == 0 {
        0
    } else {
        let before = events.drop_last();
        notices_given(server, before) + if after(server, before).stepped(
            events.last(),
        ).1 is Notify {
            1nat
        } else {
            0nat
        }
    }
}

/// Whether no notice is taken before it is given.
pub open spec fn notices_in_order(server: ServerView, events: Seq<EventView>) -> bool {
    forall|n: int|
        0 <= n < events.len() && events[n] == EventView::Notified ==> notices_taken(
            #[trigger] events.take(n),
        ) < notices_given(server, events.take(n))
}

/// Every request that waits has a stream of its own, and no other stream of a dotted address is
/// kept.
pub open spec fn one_stream_each(server: ServerView) -> bool {
    &&& forall|i: int, j: int|
        0 <= i < j < server.queue.len() ==> (#[trigger] server.queue[i]).peer_name != (
        #[trigger] server.queue[j]).peer_name
    &&& forall|i: int|
        0 <= i < server.queue.len() ==> server.streams.contains_key(
            (#[trigger] server.queue[i]).peer_name,
        )
    &&& forall|p: Seq<char>| #[trigger]
        server.streams.contains_key(p) && queue::is_dotted(p) ==> exists|i: int|
            0 <= i < server.queue.len() && (#[trigger] server.queue[i]).peer_name == p
}

/// Whether an event would keep a stream under the name of a peer whose stream is kept already.
pub open spec fn reuses_name(server: ServerView, event: EventView) -> bool {
    event matches EventView::Connection(ConnectionEventView::Located { stream, path, lookup })
        && server.located(stream, path, lookup).1 is Notify
        && server.streams.contains_key(peer_name(Some(stream)))
}

/// Whether an event brings no request from a client with priority.
pub open spec fn claims_no_priority(event: EventView) -> bool {
    match event {
        EventView::Connection(
            ConnectionEventView::Located { stream, path, lookup },
        ) => !queue::has_priority(peer_name(Some(stream))),
        _ => true,
    }
}

/// A new server is sound, keeps a stream for every request that waits, and has no request yet.
pub proof fn law_initial_server(
    ip: Seq<char>,
    port: usize,
    www_dir: Seq<char>,
    tasks: int,
    cache: usize,
)
    ensures
        ServerView::initial(ip, port, www_dir, tasks, cache).wf(),
        one_stream_each(ServerView::initial(ip, port, www_dir, tasks, cache)),
{
}

/// What a new server is made of: the number of tasks is the number of permits, none if it is
/// negative, and a unit of the cache is a million bytes.
pub proof fn law_settings_of_a_new_server(
    ip: Seq<char>,
    port: usize,
    www_dir: Seq<char>,
    tasks: int,
    cache: usize,
)
    ensures
        ({
            let server = ServerView::initial(ip, port, www_dir, tasks, cache);
            &&& server.ip == ip
            &&& server.port == port
            &&& server.www_dir_path == path::normalize_spec(www_dir)
            &&& server.queue.len() == 0
            &&& server.streams == Map::<Seq<char>, u64>::empty()
            &&& server.cached_pages == Map::<Seq<char>, Seq<u8>>::empty()
            &&& server.visitor_count == 0
            &&& server.serving() == 0
            &&& server.tasks.held == 0
            &&& server.tasks.waiting.len() == 0
            &&& tasks >= 0 ==> server.tasks.capacity == tasks
            &&& tasks < 0 ==> server.tasks.capacity == 0
            &&& cache * 1000000 <= usize::MAX ==> server.cached_threshold == cache * 1000000
        }),
{
    if cache * 1000000 <= usize::MAX {
        vstd::arithmetic::div_mod::lemma_small_mod(
            (cache * 1000000) as nat,
            (usize::MAX + 1) as nat,
        );
    }
}

/// A connection is counted, and changes nothing else. The count starts again at 0 behind the
/// largest number.
pub proof fn law_connections_are_counted(server: ServerView)
    ensures
        ({
            let (next, action) = server.stepped(
                EventView::Connection(ConnectionEventView::Accepted),
            );
            &&& action == ActionView::ReadRequest
            &&& server.visitor_count < usize::MAX ==> next.visitor_count == server.visitor_count + 1
            &&& server.visitor_count == usize::MAX ==> next.visitor_count == 0
            &&& next == ServerView { visitor_count: next.visitor_count, ..server }
        }),
{
}

/// A request that names `/` is answered with the count of the visitors; any other that names a
/// path is looked up below the working directory, all of the path. The server stays as it is.
pub proof fn law_requests_name_their_files(
    server: ServerView,
    cwd: Seq<char>,
    buffer: Seq<u8>,
    method: Seq<char>,
    target: Seq<char>,
    rest: Seq<char>,
)
    requires
        vstd::utf8::valid_utf8(buffer),
        vstd::utf8::decode_utf8(buffer) == method + seq![' '] + target + seq![' '] + rest,
        !method.contains(' '),
        !target.contains(' '),
        !target.contains('\0'),
    ensures
        ({
            let (next, action) = server.stepped(
                EventView::Connection(ConnectionEventView::Received { cwd, buffer }),
            );
            &&& next == server
            &&& target == seq!['/'] ==> shows_count(action, server.visitor_count as nat)
            &&& target != seq!['/'] ==> action == ActionView::Locate(
                path::normalize_spec(cwd + seq!['/', '.'] + target),
            )
            &&& target != seq!['/'] && path::is_absolute(target) && path::normalize_spec(target)
                == target && path::is_absolute(cwd) && path::normalize_spec(cwd) == cwd && cwd
                != seq!['/'] ==> action == ActionView::Locate(cwd + target)
        }),
{
    request::law_the_whole_target_is_requested(buffer, method, target, rest);
    lemma_counter_page_shows(server.visitor_count as nat);
    reveal_strlit("./");
    let asked = seq!['.'] + target;
    assert("./"@ =~= seq!['.'] + seq!['/']);
    if asked == "./"@ {
        assert(target =~= asked.skip(1));
        assert(seq!['/'] =~= "./"@.skip(1));
    }
    path::law_joined_by_a_slash(cwd, asked);
    assert(cwd + seq!['/'] + asked =~= cwd + seq!['/', '.'] + target);
    if target != seq!['/'] && path::is_absolute(target) && path::normalize_spec(target) == target
        && path::is_absolute(cwd) && path::normalize_spec(cwd) == cwd && cwd != seq!['/'] {
        path::law_target_is_below_the_directory(cwd, target);
    }
}

/// What names no path is not looked up: bytes that are no text and a path with a NUL character end
/// the task, and a request with fewer than two spaces is closed. The server stays as it is.
pub proof fn law_other_requests_name_no_file(
    server: ServerView,
    cwd: Seq<char>,
    buffer: Seq<u8>,
)
    ensures
        ({
            let (next, action) = server.stepped(
                EventView::Connection(ConnectionEventView::Received { cwd, buffer }),
            );
            let whole = vstd::utf8::decode_utf8(buffer);
            &&& next == server
            &&& !vstd::utf8::valid_utf8(buffer) ==> action == ActionView::Fail(Failure::NotUtf8)
            &&& vstd::utf8::valid_utf8(buffer) && (forall|i: int, j: int|
                0 <= i < j < whole.len() ==> !(#[trigger] whole[i] == ' ' && #[trigger] whole[j]
                    == ' ')) ==> action == ActionView::Close
            &&& vstd::utf8::valid_utf8(buffer) ==> forall|
                method: Seq<char>,
                target: Seq<char>,
                rest: Seq<char>,
            |
                whole == #[trigger] (method + seq![' '] + target + seq![' '] + rest)
                    && !method.contains(' ') && !target.contains(' ') && target.contains('\0')
                    ==> action == ActionView::Fail(Failure::NulInPath)
        }),
{
    let whole = vstd::utf8::decode_utf8(buffer);
    if vstd::utf8::valid_utf8(buffer) {
        if forall|i: int, j: int|
            0 <= i < j < whole.len() ==> !(#[trigger] whole[i] == ' ' && #[trigger] whole[j]
                == ' ') {
            request::law_a_request_needs_two_spaces(buffer);
        }
        assert forall|method: Seq<char>, target: Seq<char>, rest: Seq<char>|
            whole == #[trigger] (method + seq![' '] + target + seq![' '] + rest)
                && !method.contains(' ') && !target.contains(' ') && target.contains(
                '\0',
            ) implies server.received(cwd, buffer) == ActionView::Fail(Failure::NulInPath) by {
            request::law_the_whole_target_is_requested(buffer, method, target, rest);
        }
    } else {
        request::law_a_request_is_text(buffer);
    }
}

/// A file whose name ends in `.shtml`, with something before that, is a dynamic page, wherever it
/// is and whoever asks for it; the server stays as it is.
pub proof fn law_shtml_is_dynamic(
    server: ServerView,
    stream: StreamView,
    dir: Seq<char>,
    stem: Seq<char>,
    size: u64,
)
    requires
        stem.len() > 0,
        !stem.contains('/'),
    ensures
        ({
            let path = dir + seq!['/'] + (stem + ".shtml"@);
            server.stepped(
                EventView::Connection(
                    ConnectionEventView::Located {
                        stream,
                        path,
                        lookup: Lookup { exists: true, is_dir: false, size },
                    },
                ),
            ) == (server, ActionView::RespondDynamic(path))
        }),
{
    reveal_strlit("shtml");
    reveal_strlit(".shtml");
    let ext = "shtml"@;
    assert(stem + ".shtml"@ =~= stem + seq!['.'] + ext);
    assert((stem + seq!['.'] + ext).len() != seq!['.', '.'].len());
    path::law_extension_follows_the_last_dot(dir, stem, ext);
}

/// Every file with the extension `shtml` is a dynamic page, kept or not.
pub proof fn law_dynamic_by_extension(
    server: ServerView,
    stream: StreamView,
    path: Seq<char>,
    size: u64,
)
    requires
        path::extension_spec(path) == Some("shtml"@),
    ensures
        server.stepped(
            EventView::Connection(
                ConnectionEventView::Located {
                    stream,
                    path,
                    lookup: Lookup { exists: true, is_dir: false, size },
                },
            ),
        ) == (server, ActionView::RespondDynamic(path)),
{
}

/// A static file that is kept is served from memory, by a task that takes a permit if fewer are
/// held than there are, and else waits behind the others that do. Nothing else changes.
pub proof fn law_kept_file_takes_a_permit(
    server: ServerView,
    stream: StreamView,
    path: Seq<char>,
    size: u64,
)
    requires
        server.cached_pages.contains_key(path),
        path::extension_spec(path) != Some("shtml"@),
    ensures
        ({
            let (next, action) = server.stepped(
                EventView::Connection(
                    ConnectionEventView::Located {
                        stream,
                        path,
                        lookup: Lookup { exists: true, is_dir: false, size },
                    },
                ),
            );
            let free = server.tasks.held < server.tasks.capacity;
            &&& action == (ActionView::ServeCached { path, start: free })
            &&& next == ServerView { tasks: next.tasks, ..server }
            &&& took_permit(server.tasks, next.tasks, stream.id)
        }),
{
}

/// Whether a task has asked for a permit between two states: it holds one more if one was free,
/// and else it waits behind all others.
pub open spec fn took_permit(before: SemaphoreView, next: SemaphoreView, task: u64) -> bool {
    &&& next.capacity == before.capacity
    &&& before.held < before.capacity ==> next.held == before.held + 1 && next.waiting
        == before.waiting
    &&& before.held >= before.capacity ==> next.held == before.held && next.waiting
        == before.waiting.push(task)
}

/// A static file that is not kept, asked for by a client with a dotted address, waits: its request
/// takes its place in the queue, with the name of the client, the path and the size, and its
/// stream is kept in place of any other under that name. Nothing else changes.
pub proof fn law_static_request_waits(
    server: ServerView,
    id: u64,
    peer: Seq<char>,
    path: Seq<char>,
    size: u64,
)
    requires
        !server.cached_pages.contains_key(path),
        path::extension_spec(path) != Some("shtml"@),
    ensures
        ({
            let stream = StreamView { id, peer: Some(peer) };
            let (next, action) = server.stepped(
                EventView::Connection(
                    ConnectionEventView::Located {
                        stream,
                        path,
                        lookup: Lookup { exists: true, is_dir: false, size },
                    },
                ),
            );
            let replaced = if server.streams.contains_key(peer) {
                Some(server.streams[peer])
            } else {
                None
            };
            let request = RequestView { peer_name: peer, path, size };
            &&& next == ServerView { queue: next.queue, streams: next.streams, ..server }
            &&& next.streams == server.streams.insert(peer, id)
            &&& peer.contains('.') ==> {
                &&& next.queue == queue::enqueued(server.queue, request)
                &&& next.queue.to_multiset() == server.queue.to_multiset().insert(request)
                &&& action == (ActionView::Notify { replaced })
            }
            &&& !peer.contains('.') ==> {
                &&& next.queue == server.queue
                &&& action == ActionView::Fail(Failure::NoAddress { replaced })
            }
        }),
{
    queue::law_enqueue_only_adds(server.queue, RequestView { peer_name: peer, path, size });
}

/// A client whose address cannot be told has the empty name.
pub proof fn law_unknown_address_is_refused(
    server: ServerView,
    id: u64,
    path: Seq<char>,
    size: u64,
)
    requires
        !server.cached_pages.contains_key(path),
        path::extension_spec(path) != Some("shtml"@),
    ensures
        ({
            let lookup = Lookup { exists: true, is_dir: false, size };
            server.located(StreamView { id, peer: None }, path, lookup) == server.located(
                StreamView { id, peer: Some(Seq::empty()) },
                path,
                lookup,
            )
        }),
{
    reveal_strlit("");
    assert(""@ =~= Seq::<char>::empty());
}

/// A notice takes the first request of the queue, and no other, and serves it on the stream that
/// is kept for its peer, which is kept no longer. Its task takes a permit or waits for one. All
/// other requests, streams and pages stay as they are.
pub proof fn law_notice_serves_the_first(server: ServerView)
    requires
        server.queue.len() > 0,
    ensures
        ({
            let (next, action) = server.stepped(EventView::Notified);
            let first = server.queue[0];
            &&& seq![first] + next.queue == server.queue
            &&& !next.streams.contains_key(first.peer_name)
            &&& forall|p: Seq<char>|
                p != first.peer_name ==> (#[trigger] next.streams.contains_key(p)
                    <==> server.streams.contains_key(p)) && (server.streams.contains_key(p)
                    ==> next.streams[p] == server.streams[p])
            &&& next == ServerView {
                queue: next.queue,
                streams: next.streams,
                tasks: next.tasks,
                ..server
            }
            &&& server.streams.contains_key(first.peer_name) ==> {
                &&& action == (ActionView::Serve {
                    stream: server.streams[first.peer_name],
                    request: first,
                    start: server.tasks.held < server.tasks.capacity,
                })
                &&& took_permit(server.tasks, next.tasks, server.streams[first.peer_name])
            }
            &&& !server.streams.contains_key(first.peer_name) ==> {
                &&& action == ActionView::Fail(Failure::NoStream)
                &&& next.tasks == server.tasks
            }
        }),
{
    assert(seq![server.queue[0]] + server.queue.skip(1) =~= server.queue);
}

/// A notice for which no request waits changes nothing.
pub proof fn law_notice_without_a_request(server: ServerView)
    requires
        server.queue.len() == 0,
    ensures
        server.stepped(EventView::Notified) == (server, ActionView::Idle),
{
}

/// The end of a task that holds no permit changes nothing.
pub proof fn law_end_without_a_permit(server: ServerView)
    requires
        server.tasks.held == 0,
    ensures
        server.stepped(EventView::Served) == (server, ActionView::Idle),
        server.serving() == 0,
{
}

/// A task that ends hands its permit to the task that has waited longest, or gives it back if none
/// waits. Nothing else changes.
pub proof fn law_permit_passes_on(server: ServerView)
    requires
        server.tasks.held > 0,
    ensures
        ({
            let (next, action) = server.stepped(EventView::Served);
            &&& next == ServerView { tasks: next.tasks, ..server }
            &&& next.tasks.capacity == server.tasks.capacity
            &&& server.tasks.waiting.len() > 0 ==> {
                &&& action == (ActionView::Start { stream: server.tasks.waiting[0] })
                &&& next.tasks.held == server.tasks.held
                &&& seq![server.tasks.waiting[0]] + next.tasks.waiting == server.tasks.waiting
            }
            &&& server.tasks.waiting.len() == 0 ==> {
                &&& action == ActionView::Idle
                &&& next.tasks.held == server.tasks.held - 1
                &&& next.tasks.waiting.len() == 0
            }
        }),
{
    if server.tasks.waiting.len() > 0 {
        assert(seq![server.tasks.waiting[0]] + server.tasks.waiting.skip(1)
            =~= server.tasks.waiting);
    }
}

/// Whatever happens, the address, the directory, the size of the cache, the kept pages and the
/// number of permits stay as they are.
pub proof fn law_steps_keep_settings(server: ServerView, event: EventView)
    ensures
        ({
            let next = server.stepped(event).0;
            &&& next.ip == server.ip
            &&& next.port == server.port
            &&& next.www_dir_path == server.www_dir_path
            &&& next.cached_threshold == server.cached_threshold
            &&& next.cached_pages == server.cached_pages
            &&& next.tasks.capacity == server.tasks.capacity
        }),
{
}

/// Whatever happens, a sound server stays sound.
pub proof fn law_server_stays_sound(server: ServerView, events: Seq<EventView>)
    requires
        server.wf(),
    ensures
        after(server, events).wf(),
    decreases events.len(),
{
    if events.len() > 0 {
        let before = after(server, events.drop_last());
        law_server_stays_sound(server, events.drop_last());
        match events.last() {
            EventView::Connection(ConnectionEventView::Located { stream, path, lookup }) => {
                let request = RequestView {
                    peer_name: peer_name(Some(stream)),
                    path,
                    size: lookup.size,
                };
                queue::law_enqueue_only_adds(before.queue, request);
            },
            _ => {},
        }
    }
}

/// The visitor count is the number of connections that were made.
pub proof fn law_visitor_count(server: ServerView, events: Seq<EventView>)
    requires
        server.visitor_count + connections(events) <= usize::MAX,
    ensures
        after(server, events).visitor_count == server.visitor_count + connections(events),
    decreases events.len(),
{
    reveal(Seq::filter);
    if events.len() > 0 {
        law_visitor_count(server, events.drop_last());
    }
}

/// The counter page tells the number of connections that were made, the one that asks for it
/// among them.
pub proof fn law_counter_page_counts_visitors(
    server: ServerView,
    events: Seq<EventView>,
    cwd: Seq<char>,
    buffer: Seq<u8>,
)
    requires
        server.visitor_count == 0,
        connections(events) <= usize::MAX,
        request::requested_path_spec(buffer) == Ok::<Option<Seq<char>>, Failure>(Some("./"@)),
    ensures
        after(server, events).stepped(
            EventView::Connection(ConnectionEventView::Received { cwd, buffer }),
        ).1 == ActionView::Respond(pages::counter_page(connections(events))),
        shows_count(
            after(server, events).stepped(
                EventView::Connection(ConnectionEventView::Received { cwd, buffer }),
            ).1,
            connections(events),
        ),
{
    law_visitor_count(server, events);
    lemma_counter_page_shows(connections(events));
}

/// Whether an action is to send a counter page on which a number is written that is read back as
/// the given one.
pub open spec fn shows_count(action: ActionView, count: nat) -> bool {
    action matches ActionView::Respond(page) && exists|shown: Seq<char>|
        {
            &&& vstd::utf8::valid_utf8(page)
            &&& vstd::utf8::decode_utf8(page) == pages::HTTP_OK@ + pages::COUNTER_STYLE@
                + pages::COUNTER_GREETING@ + shown + pages::COUNTER_END@
            &&& #[trigger] text::parse_usize_spec(shown) == Some(count as usize)
            &&& text::number(shown) == count
        }
}

proof fn lemma_counter_page_shows(count: nat)
    requires
        count <= usize::MAX,
    ensures
        shows_count(ActionView::Respond(pages::counter_page(count)), count),
{
    pages::law_counter_page_shows_the_count(count);
    let page = vstd::utf8::decode_utf8(pages::counter_page(count));
    let front = pages::HTTP_OK@ + pages::COUNTER_STYLE@ + pages::COUNTER_GREETING@;
    let shown = page.subrange(front.len() as int, page.len() - pages::COUNTER_END@.len());
    assert(text::parse_usize_spec(shown) == Some(count as usize));
}

/// Every notice that is given stands for one request that waits.
pub proof fn law_notices_count_requests(server: ServerView, events: Seq<EventView>)
    requires
        server.queue.len() == 0,
        notices_in_order(server, events),
    ensures
        after(server, events).queue.len() == notices_given(server, events) - notices_taken(events),
    decreases events.len(),
{
    reveal(Seq::filter);
    if events.len() > 0 {
        let before = events.drop_last();
        assert forall|n: int|
            0 <= n < before.len() && before[n] == EventView::Notified implies notices_taken(
            #[trigger] before.take(n),
        ) < notices_given(server, before.take(n)) by {
            assert(before.take(n) =~= events.take(n));
            assert(events[n] == before[n]);
        }
        law_notices_count_requests(server, before);
        assert(events.take(events.len() - 1) =~= before);
        match events.last() {
            EventView::Connection(ConnectionEventView::Located { stream, path, lookup }) => {
                let request = RequestView {
                    peer_name: peer_name(Some(stream)),
                    path,
                    size: lookup.size,
                };
                queue::law_enqueue_only_adds(after(server, before).queue, request);
            },
            _ => {},
        }
    }
}

/// A notice that was given always finds a request.
pub proof fn law_notice_finds_a_request(server: ServerView, events: Seq<EventView>, n: int)
    requires
        server.queue.len() == 0,
        notices_in_order(server, events),
        0 <= n < events.len(),
        events[n] == EventView::Notified,
    ensures
        action_at(server, events, n) != ActionView::Idle,
{
    let before = events.take(n);
    assert forall|k: int|
        0 <= k < before.len() && before[k] == EventView::Notified implies notices_taken(
        #[trigger] before.take(k),
    ) < notices_given(server, before.take(k)) by {
        assert(before.take(k) =~= events.take(k));
        assert(events[k] == before[k]);
    }
    law_notices_count_requests(server, before);
}

/// As long as no two clients have the same name at a time, every request that waits keeps a
/// stream of its own, and the one that is served next finds its stream.
pub proof fn law_every_request_has_its_stream(server: ServerView, event: EventView)
    requires
        one_stream_each(server),
        !reuses_name(server, event),
    ensures
        one_stream_each(server.stepped(event).0),
        server.stepped(event).1 != ActionView::Fail(Failure::NoStream),
{
    let next = server.stepped(event).0;
    match event {
        EventView::Connection(ConnectionEventView::Located { stream, path, lookup }) => {
            if server.located(stream, path, lookup).1 is Notify {
                let name = peer_name(Some(stream));
                let request = RequestView { peer_name: name, path, size: lookup.size };
                let at = queue::insert_index(server.queue, request);
                queue::law_enqueue_only_adds(server.queue, request);
                assert(next.queue == server.queue.insert(at, request));
                assert forall|i: int, j: int| 0 <= i < j < next.queue.len() implies (
                #[trigger] next.queue[i]).peer_name != (#[trigger] next.queue[j]).peer_name by {
                    let old_i = if i < at { i } else { i - 1 };
                    let old_j = if j < at { j } else { j - 1 };
                    if i != at {
                        assert(next.queue[i] == server.queue[old_i]);
                    }
                    if j != at {
                        assert(next.queue[j] == server.queue[old_j]);
                    }
                }
                assert forall|i: int|
                    0 <= i < next.queue.len() implies next.streams.contains_key(
                    (#[trigger] next.queue[i]).peer_name,
                ) by {
                    let old_i = if i < at { i } else { i - 1 };
                    if i != at {
                        assert(next.queue[i] == server.queue[old_i]);
                    }
                }
                assert forall|p: Seq<char>| #[trigger]
                    next.streams.contains_key(p) && queue::is_dotted(p) implies exists|i: int|
                    0 <= i < next.queue.len() && (#[trigger] next.queue[i]).peer_name == p by {
                    if p == name {
                        assert(next.queue[at].peer_name == p);
                    } else {
                        assert(server.streams.contains_key(p));
                        let i = choose|i: int|
                            0 <= i < server.queue.len() && (#[trigger] server.queue[i]).peer_name
                                == p;
                        let new_i = if i < at { i } else { i + 1 };
                        assert(next.queue[new_i] == server.queue[i]);
                    }
                }
            }
        },
        EventView::Notified => {
            if server.queue.len() > 0 {
                let first = server.queue[0].peer_name;
                assert(server.streams.contains_key(first));
                assert forall|i: int|
                    0 <= i < next.queue.len() implies next.streams.contains_key(
                    (#[trigger] next.queue[i]).peer_name,
                ) by {
                    assert(next.queue[i] == server.queue[i + 1]);
                }
                assert forall|p: Seq<char>| #[trigger]
                    next.streams.contains_key(p) && queue::is_dotted(p) implies exists|i: int|
                    0 <= i < next.queue.len() && (#[trigger] next.queue[i]).peer_name == p by {
                    assert(server.streams.contains_key(p));
                    let i = choose|i: int|
                        0 <= i < server.queue.len() && (#[trigger] server.queue[i]).peer_name == p;
                    assert(next.queue[i - 1] == server.queue[i]);
                }
            }
        },
        _ => {},
    }
}

/// The stream that is kept for a peer with a dotted address stays the same until it is served,
/// unless another client with the same name comes.
pub proof fn law_kept_stream_stays(server: ServerView, event: EventView, peer: Seq<char>)
    requires
        server.streams.contains_key(peer),
        queue::is_dotted(peer),
        !reuses_name(server, event),
        event == EventView::Notified ==> server.queue.len() == 0 || server.queue[0].peer_name
            != peer,
    ensures
        server.stepped(event).0.streams.contains_key(peer),
        server.stepped(event).0.streams[peer] == server.streams[peer],
{
}

/// As long as no two clients have the same name at a time, every request that waits has a stream
/// of its own in every state that the server reaches, and the task that hands out requests never
/// ends for want of a stream.
pub proof fn law_streams_never_fail(server: ServerView, events: Seq<EventView>)
    requires
        one_stream_each(server),
        forall|n: int|
            0 <= n < events.len() ==> !reuses_name(
                after(server, #[trigger] events.take(n)),
                events[n],
            ),
    ensures
        one_stream_each(after(server, events)),
        forall|n: int|
            0 <= n < events.len() ==> #[trigger] action_at(server, events, n) != ActionView::Fail(
                Failure::NoStream,
            ),
    decreases events.len(),
{
    if events.len() > 0 {
        let earlier = events.drop_last();
        let last = events.len() - 1;
        assert forall|n: int| 0 <= n < earlier.len() implies !reuses_name(
            after(server, #[trigger] earlier.take(n)),
            earlier[n],
        ) by {
            assert(earlier.take(n) =~= events.take(n));
        }
        law_streams_never_fail(server, earlier);
        assert(events.take(last) =~= earlier);
        law_every_request_has_its_stream(after(server, earlier), events[last]);
        assert forall|n: int| 0 <= n < events.len() implies #[trigger] action_at(
            server,
            events,
            n,
        ) != ActionView::Fail(Failure::NoStream) by {
            if n < last {
                assert(earlier.take(n) =~= events.take(n));
                assert(action_at(server, earlier, n) != ActionView::Fail(Failure::NoStream));
            }
        }
    }
}

/// Whether event number `n` of a sequence makes the server serve a request of the given peer.
pub open spec fn serves_peer(
    server: ServerView,
    events: Seq<EventView>,
    n: int,
    peer: Seq<char>,
) -> bool {
    action_at(server, events, n) matches ActionView::Serve { stream, request, start }
        && request.peer_name == peer
}

/// A request is served on the stream that it came on: the one that event `came` has put in the
/// queue is served by event `served`, if that is the first to serve its peer, and no other client
/// of the same name comes meanwhile.
pub proof fn law_request_is_served_on_its_stream(
    server: ServerView,
    events: Seq<EventView>,
    came: int,
    served: int,
    client: StreamView,
    path: Seq<char>,
    lookup: Lookup,
)
    requires
        0 <= came < served < events.len(),
        events[came] == EventView::Connection(
            ConnectionEventView::Located { stream: client, path, lookup },
        ),
        action_at(server, events, came) is Notify,
        serves_peer(server, events, served, peer_name(Some(client))),
        forall|n: int|
            came < n < served ==> !serves_peer(server, events, n, peer_name(Some(client)))
                && !reuses_name(after(server, #[trigger] events.take(n)), events[n]),
    ensures
        action_at(server, events, served) matches ActionView::Serve { stream, request, start }
            && stream == client.id,
{
    lemma_stream_stays_until(server, events, came, served, client, path, lookup);
}

proof fn lemma_stream_stays_until(
    server: ServerView,
    events: Seq<EventView>,
    came: int,
    n: int,
    client: StreamView,
    path: Seq<char>,
    lookup: Lookup,
)
    requires
        0 <= came < n <= events.len(),
        events[came] == EventView::Connection(
            ConnectionEventView::Located { stream: client, path, lookup },
        ),
        action_at(server, events, came) is Notify,
        forall|k: int|
            came < k < n ==> !serves_peer(server, events, k, peer_name(Some(client)))
                && !reuses_name(after(server, #[trigger] events.take(k)), events[k]),
    ensures
        after(server, events.take(n)).stream_of(peer_name(Some(client))) == Some(client.id),
    decreases n,
{
    let peer = peer_name(Some(client));
    let before = after(server, events.take(n - 1));
    let event = events[n - 1];
    assert(events.take(n).drop_last() =~= events.take(n - 1));
    assert(events.take(n).last() == event);
    if n - 1 > came {
        lemma_stream_stays_until(server, events, came, n - 1, client, path, lookup);
        assert(!serves_peer(server, events, n - 1, peer));
        assert(!reuses_name(after(server, events.take(n - 1)), event));
        assert(action_at(server, events, n - 1) == before.stepped(event).1);
        law_kept_stream_stays(before, event, peer);
    }
}

/// A request that comes while none waits is the next to be served, on the stream it came on, by a
/// task that takes one permit; nothing else is left of it.
pub proof fn law_enqueue_then_dequeue(
    server: ServerView,
    stream: StreamView,
    path: Seq<char>,
    size: u64,
)
    requires
        server.queue.len() == 0,
        !server.streams.contains_key(peer_name(Some(stream))),
    ensures
        server.enqueued(stream, path, size).dequeued() == (
            server.began(stream.id),
            ActionView::Serve {
                stream: stream.id,
                request: RequestView { peer_name: peer_name(Some(stream)), path, size },
                start: server.has_permit(),
            },
        ),
{
    let name = peer_name(Some(stream));
    let request = RequestView { peer_name: name, path, size };
    queue::law_enqueue_only_adds(server.queue, request);
    let full = server.enqueued(stream, path, size);
    assert(full.queue =~= seq![request]);
    assert(full.queue.skip(1) =~= server.queue);
    assert(full.streams.remove(name) =~= server.streams);
}

/// Whether an event is a request for a static file that is not kept: the path is that of a file
/// and not of a dynamic page, and the client has a dotted address.
pub open spec fn asks_for_static_file(server: ServerView, event: EventView) -> bool {
    match event {
        EventView::Connection(ConnectionEventView::Located { stream, path, lookup }) => {
            &&& lookup.exists && !lookup.is_dir
            &&& path::extension_spec(path) != Some("shtml"@)
            &&& !server.cached_pages.contains_key(path)
            &&& queue::is_dotted(peer_name(Some(stream)))
        },
        _ => false,
    }
}

/// The stream of the client whose path was looked up.
pub open spec fn client_of(event: EventView) -> StreamView {
    event->Connection_0->Located_stream
}

/// The request that a client makes whose path was looked up.
pub open spec fn request_of(event: EventView) -> RequestView {
    RequestView {
        peer_name: peer_name(Some(client_of(event))),
        path: event->Connection_0->Located_path,
        size: event->Connection_0->Located_lookup.size,
    }
}

/// Any number of requests for static files, from clients of different names, give as many notices
/// and make the queue longer by as many, whatever waited before. Each is in the queue and has its
/// stream kept when its notice is given, and still at the end; nothing is sent meanwhile.
pub proof fn law_every_request_gives_a_notice(server: ServerView, events: Seq<EventView>)
    requires
        forall|n: int|
            0 <= n < events.len() ==> asks_for_static_file(server, #[trigger] events[n]),
        forall|m: int, n: int|
            0 <= m < n < events.len() ==> peer_name(Some(client_of(#[trigger] events[m])))
                != peer_name(Some(client_of(#[trigger] events[n]))),
    ensures
        notices_given(server, events) == events.len(),
        forall|n: int|
            0 <= n < events.len() ==> #[trigger] action_at(server, events, n) is Notify
                && after(server, events.take(n + 1)).queue.contains(request_of(events[n])) && after(
                server,
                events.take(n + 1),
            ).stream_of(peer_name(Some(client_of(events[n])))) == Some(client_of(events[n]).id),
        after(server, events).queue.len() == server.queue.len() + events.len(),
        after(server, events).cached_pages == server.cached_pages,
        forall|n: int|
            0 <= n < events.len() ==> after(server, events).queue.contains(
                request_of(#[trigger] events[n]),
            ),
        forall|n: int|
            0 <= n < events.len() ==> after(server, events).stream_of(
                peer_name(Some(client_of(#[trigger] events[n]))),
            ) == Some(client_of(events[n]).id),
        forall|r: RequestView| #[trigger]
            server.queue.contains(r) ==> after(server, events).queue.contains(r),
    decreases events.len(),
{
    if events.len() > 0 {
        let earlier = events.drop_last();
        let last = events.len() - 1;
        assert forall|n: int| 0 <= n < earlier.len() implies #[trigger] earlier[n]
            == events[n] by {}
        law_every_request_gives_a_notice(server, earlier);
        let before = after(server, earlier);
        let event = events[last];
        assert(asks_for_static_file(server, event));
        let request = request_of(event);
        let at = queue::insert_index(before.queue, request);
        queue::law_enqueue_only_adds(before.queue, request);
        let next = after(server, events);
        assert(next.queue == before.queue.insert(at, request));
        assert(next.queue[at] == request);
        assert(events.take(last) =~= earlier);
        assert forall|r: RequestView| #[trigger] before.queue.contains(r) implies next.queue.contains(
            r,
        ) by {
            let i = choose|i: int| 0 <= i < before.queue.len() && before.queue[i] == r;
            let j = if i < at { i } else { i + 1 };
            assert(next.queue[j] == r);
        }
        assert(events.take(last + 1) =~= events);
        assert forall|n: int| 0 <= n < events.len() implies #[trigger] action_at(
            server,
            events,
            n,
        ) is Notify && after(server, events.take(n + 1)).queue.contains(request_of(events[n]))
            && after(server, events.take(n + 1)).stream_of(
            peer_name(Some(client_of(events[n]))),
        ) == Some(client_of(events[n]).id) by {
            if n < last {
                assert(earlier.take(n) =~= events.take(n));
                assert(earlier.take(n + 1) =~= events.take(n + 1));
                assert(action_at(server, earlier, n) is Notify);
            }
        }
        assert forall|n: int| 0 <= n < events.len() implies next.queue.contains(
            request_of(#[trigger] events[n]),
        ) by {
            if n < last {
                assert(before.queue.contains(request_of(earlier[n])));
            }
        }
        assert forall|n: int| 0 <= n < events.len() implies next.stream_of(
            peer_name(Some(client_of(#[trigger] events[n]))),
        ) == Some(client_of(events[n]).id) by {
            if n < last {
                assert(before.stream_of(peer_name(Some(client_of(earlier[n])))) == Some(
                    client_of(earlier[n]).id,
                ));
                assert(peer_name(Some(client_of(events[n]))) != peer_name(Some(client_of(event))));
            }
        }
    }
}

/// While no client with priority comes, the requests always wait in the order of the sizes of
/// their files.
pub proof fn law_shortest_first_without_priority(server: ServerView, events: Seq<EventView>)
    requires
        queue::shortest_first(server.queue),
        forall|i: int| 0 <= i < events.len() ==> claims_no_priority(#[trigger] events[i]),
    ensures
        queue::shortest_first(after(server, events).queue),
    decreases events.len(),
{
    if events.len() > 0 {
        let earlier = events.drop_last();
        assert forall|i: int| 0 <= i < earlier.len() implies claims_no_priority(
            #[trigger] earlier[i],
        ) by {
            assert(events[i] == earlier[i]);
        }
        law_shortest_first_without_priority(server, earlier);
        let before = after(server, earlier);
        match events.last() {
            EventView::Connection(ConnectionEventView::Located { stream, path, lookup }) => {
                assert(claims_no_priority(events[events.len() - 1]));
                let request = RequestView {
                    peer_name: peer_name(Some(stream)),
                    path,
                    size: lookup.size,
                };
                queue::law_shortest_first(before.queue, request);
            },
            EventView::Notified => {
                let next = after(server, events);
                if before.queue.len() > 0 {
                    assert forall|i: int, j: int| 0 <= i < j < next.queue.len() implies (
                    #[trigger] next.queue[i]).size <= (#[trigger] next.queue[j]).size by {
                        assert(next.queue[i] == before.queue[i + 1]);
                        assert(next.queue[j] == before.queue[j + 1]);
                    }
                }
            },
            _ => {},
        }
    }
}

/// The requests that a sequence of events has put in the queue, the first to come first.
pub open spec fn arrived(server: ServerView, events: Seq<EventView>) -> Seq<RequestView>
    decreases events.len(),
{
    if events.len() == 0 {
        seq![]
    } else {
        let earlier = events.drop_last();
        if after(server, earlier).stepped(events.last()).1 is Notify {
            arrived(server, earlier).push(request_of(events.last()))
        } else {
            arrived(server, earlier)
        }
    }
}

/// The requests that were taken from the queue while no permit was free and whose tasks have not
/// started since, each with its stream, the first to be taken first.
pub open spec fn held_back(server: ServerView, events: Seq<EventView>) -> Seq<(u64, RequestView)>
    decreases events.len(),
{
    if events.len() == 0 {
        seq![]
    } else {
        let earlier = events.drop_last();
        let held = held_back(server, earlier);
        match after(server, earlier).stepped(events.last()).1 {
            ActionView::Serve { stream, request, start } => if start {
                held
            } else {
                held.push((stream, request))
            },
            ActionView::Start { stream } => if held.len() > 0 && held[0].0 == stream {
                held.skip(1)
            } else {
                held
            },
            _ => held,
        }
    }
}

/// The requests among what is held back.
pub open spec fn requests_of(held: Seq<(u64, RequestView)>) -> Seq<RequestView> {
    held.map_values(|h: (u64, RequestView)| h.1)
}

/// The requests of the queue whose tasks a sequence of events has started, the first to start
/// first.
pub open spec fn begun(server: ServerView, events: Seq<EventView>) -> Seq<RequestView>
    decreases events.len(),
{
    if events.len() == 0 {
        seq![]
    } else {
        let earlier = events.drop_last();
        let held = held_back(server, earlier);
        match after(server, earlier).stepped(events.last()).1 {
            ActionView::Serve { stream, request, start } => if start {
                begun(server, earlier).push(request)
            } else {
                begun(server, earlier)
            },
            ActionView::Start { stream } => if held.len() > 0 && held[0].0 == stream {
                begun(server, earlier).push(held[0].1)
            } else {
                begun(server, earlier)
            },
            _ => begun(server, earlier),
        }
    }
}

/// The requests that have come and whose tasks have not started.
pub open spec fn not_begun(server: ServerView, events: Seq<EventView>) -> Multiset<RequestView> {
    server.queue.to_multiset().add(arrived(server, events).to_multiset()).sub(
        begun(server, events).to_multiset(),
    )
}

/// Whether no notice is taken while a request is held back: none comes between a `Serve` whose
/// task cannot start yet and the `Start` of its stream.
pub open spec fn notices_wait(server: ServerView, events: Seq<EventView>) -> bool {
    forall|n: int|
        0 <= n < events.len() && events[n] == EventView::Notified ==> held_back(
            server,
            #[trigger] events.take(n),
        ).len() == 0
}

/// Whether every request that is taken from the queue has its stream.
pub open spec fn streams_found(server: ServerView, events: Seq<EventView>) -> bool {
    forall|n: int|
        0 <= n < events.len() ==> #[trigger] action_at(server, events, n) != ActionView::Fail(
            Failure::NoStream,
        )
}

proof fn lemma_prefix_is_orderly(server: ServerView, events: Seq<EventView>, n: int)
    requires
        0 <= n <= events.len(),
        notices_wait(server, events),
        streams_found(server, events),
    ensures
        notices_wait(server, events.take(n)),
        streams_found(server, events.take(n)),
{
    let earlier = events.take(n);
    assert forall|k: int| 0 <= k < n && earlier[k] == EventView::Notified implies held_back(
        server,
        #[trigger] earlier.take(k),
    ).len() == 0 by {
        assert(earlier.take(k) =~= events.take(k));
        assert(events[k] == EventView::Notified);
    }
    assert forall|k: int| 0 <= k < n implies #[trigger] action_at(server, earlier, k)
        != ActionView::Fail(Failure::NoStream) by {
        assert(earlier.take(k) =~= events.take(k));
        assert(action_at(server, events, k) != ActionView::Fail(Failure::NoStream));
    }
}

/// If no notice is taken while a request is held back, at most one request is held back at a time.
/// Its task waits for a permit, and every other request that has come and whose task has not
/// started is still in the queue.
pub proof fn law_at_most_one_request_is_held_back(server: ServerView, events: Seq<EventView>)
    requires
        notices_wait(server, events),
        streams_found(server, events),
    ensures
        held_back(server, events).len() <= 1,
        held_back(server, events).len() == 0 ==> not_begun(server, events) == after(
            server,
            events,
        ).queue.to_multiset(),
        held_back(server, events).len() == 1 ==> {
            let (stream, request) = held_back(server, events)[0];
            &&& after(server, events).tasks.waiting.contains(stream)
            &&& not_begun(server, events) == after(server, events).queue.to_multiset().insert(
                request,
            )
        },
{
    broadcast use vstd::multiset::group_multiset_axioms;
    broadcast use vstd::seq_lib::group_to_multiset_ensures;

    lemma_requests_add_up(server, events);
    let held = held_back(server, events);
    let queue = after(server, events).queue;
    let none = Seq::<RequestView>::empty();
    assert(none.to_multiset() =~= Multiset::empty());
    if held.len() == 0 {
        assert(requests_of(held) =~= none);
        assert(not_begun(server, events) =~= queue.to_multiset());
    } else {
        assert(requests_of(held) =~= none.push(held[0].1));
        assert(not_begun(server, events) =~= queue.to_multiset().insert(held[0].1));
    }
}

proof fn lemma_requests_add_up(server: ServerView, events: Seq<EventView>)
    requires
        notices_wait(server, events),
        streams_found(server, events),
    ensures
        held_back(server, events).len() <= 1,
        held_back(server, events).len() == 1 ==> after(server, events).tasks.waiting.contains(
            held_back(server, events)[0].0,
        ),
        server.queue.to_multiset().add(arrived(server, events).to_multiset()) == after(
            server,
            events,
        ).queue.to_multiset().add(begun(server, events).to_multiset()).add(
            requests_of(held_back(server, events)).to_multiset(),
        ),
    decreases events.len(),
{
    broadcast use vstd::multiset::group_multiset_axioms;
    broadcast use vstd::seq_lib::group_to_multiset_ensures;

    let held = held_back(server, events);
    let none = Seq::<RequestView>::empty();
    assert(none.to_multiset() =~= Multiset::empty());
    if events.len() == 0 {
        assert(requests_of(held) =~= none);
    } else {
        let earlier = events.drop_last();
        let last = events.len() - 1;
        assert(events.take(last) =~= earlier);
        lemma_prefix_is_orderly(server, events, last);
        lemma_requests_add_up(server, earlier);
        let before = after(server, earlier);
        let next = after(server, events);
        let was_held = held_back(server, earlier);
        let action = before.stepped(events.last()).1;
        assert(action == action_at(server, events, last));
        match events.last() {
            EventView::Connection(ConnectionEventView::Located { stream, path, lookup }) => {
                if action is Notify {
                    let request = request_of(events.last());
                    queue::law_enqueue_only_adds(before.queue, request);
                    let at = queue::insert_index(before.queue, request);
                    vstd::seq_lib::to_multiset_insert(before.queue, at, request);
                    assert(next.queue.to_multiset() == before.queue.to_multiset().insert(request));
                    let sum = server.queue.to_multiset().add(
                        arrived(server, earlier).to_multiset(),
                    );
                    assert(server.queue.to_multiset().add(arrived(server, events).to_multiset())
                        =~= sum.insert(request));
                    assert(next.queue.to_multiset().add(begun(server, events).to_multiset()).add(
                        requests_of(held).to_multiset(),
                    ) =~= sum.insert(request));
                }
                if was_held.len() == 1 {
                    let i = choose|i: int|
                        0 <= i < before.tasks.waiting.len() && before.tasks.waiting[i]
                            == was_held[0].0;
                    assert(next.tasks.waiting[i] == was_held[0].0);
                }
            },
            EventView::Notified => {
                assert(was_held.len() == 0);
                assert(requests_of(was_held) =~= none);
                if before.queue.len() > 0 {
                    let first = before.queue[0];
                    assert(before.queue.skip(1) =~= before.queue.remove(0));
                    assert(next.queue.to_multiset() == before.queue.to_multiset().remove(first));
                    assert(before.queue.contains(first));
                    if !before.has_permit() {
                        assert(requests_of(held) =~= none.push(first));
                        assert(next.tasks.waiting.last() == held[0].0);
                    }
                }
            },
            EventView::Served => {
                if action is Start {
                    let stream = action->Start_stream;
                    if was_held.len() == 1 {
                        if was_held[0].0 == stream {
                            assert(requests_of(was_held) =~= none.push(was_held[0].1));
                            assert(requests_of(held) =~= none);
                        } else {
                            let i = choose|i: int|
                                0 <= i < before.tasks.waiting.len() && before.tasks.waiting[i]
                                    == was_held[0].0;
                            assert(next.tasks.waiting[i - 1] == was_held[0].0);
                        }
                    }
                }
            },
            _ => {},
        }
        assert(server.queue.to_multiset().add(arrived(server, events).to_multiset())
            =~= next.queue.to_multiset().add(begun(server, events).to_multiset()).add(
            requests_of(held).to_multiset(),
        ));
    }
}

/// While no client with priority comes, and no notice is taken while a request is held back, a
/// notice takes the smallest of all requests that have come and whose tasks have not started: a
/// smaller one that comes while another is held back still overtakes all that wait.
pub proof fn law_smallest_request_is_taken(
    server: ServerView,
    events: Seq<EventView>,
    n: int,
    r: RequestView,
)
    requires
        queue::shortest_first(server.queue),
        forall|i: int| 0 <= i < events.len() ==> claims_no_priority(#[trigger] events[i]),
        notices_wait(server, events),
        streams_found(server, events),
        0 <= n < events.len(),
        events[n] == EventView::Notified,
        not_begun(server, events.take(n)).count(r) > 0,
    ensures
        action_at(server, events, n) matches ActionView::Serve { stream, request, start }
            && request.size <= r.size && not_begun(server, events.take(n)).count(request) > 0,
{
    broadcast use vstd::seq_lib::group_to_multiset_ensures;

    let earlier = events.take(n);
    lemma_prefix_is_orderly(server, events, n);
    law_at_most_one_request_is_held_back(server, earlier);
    assert forall|i: int| 0 <= i < earlier.len() implies claims_no_priority(
        #[trigger] earlier[i],
    ) by {
        assert(events[i] == earlier[i]);
    }
    law_shortest_first_without_priority(server, earlier);
    let queue = after(server, earlier).queue;
    assert(queue.contains(r));
    let i = choose|i: int| 0 <= i < queue.len() && queue[i] == r;
    assert(queue[0].size <= queue[i].size);
    assert(queue.contains(queue[0]));
    assert(action_at(server, events, n) != ActionView::Fail(Failure::NoStream));
}

/// A path that does not exist or is a directory is answered with an error page that names it,
/// and leaves the server as it was.
pub proof fn law_missing_path_is_refused(
    server: ServerView,
    stream: StreamView,
    path: Seq<char>,
    lookup: Lookup,
)
    requires
        !lookup.exists || lookup.is_dir,
    ensures
        server.stepped(
            EventView::Connection(ConnectionEventView::Located { stream, path, lookup }),
        ) == (server, ActionView::Respond(pages::error_page(path))),
        vstd::utf8::decode_utf8(pages::error_page(path)) == pages::HTTP_BAD@ + "Cannot open: "@
            + path,
{
    pages::law_error_page_names_the_path(path);
}

/// A path that is looked up from an absolute directory is absolute and in normal form, however it
/// is written in the request.
pub proof fn law_looked_up_path_is_normal(
    server: ServerView,
    cwd: Seq<char>,
    buffer: Seq<u8>,
    path: Seq<char>,
)
    requires
        path::is_absolute(cwd),
        server.received(cwd, buffer) == ActionView::Locate(path),
    ensures
        path::is_absolute(path),
        path::normalize_spec(path) == path,
{
    let asked = request::requested_path_spec(buffer)->Ok_0->0;
    path::lemma_absolute_stays_absolute(cwd + "/"@ + asked);
    path::law_normalize_is_idempotent(cwd + "/"@ + asked);
}

/// A page for which there is room is kept: from then on a request for it is answered from memory,
/// with the page as it was read.
pub proof fn law_kept_page_is_served(
    server: ServerView,
    path: Seq<char>,
    page: Seq<u8>,
    stream: StreamView,
    size: u64,
)
    requires
        server.keeps(path, page),
        path::extension_spec(path) != Some("shtml"@),
    ensures
        server.kept(path, page).cached_pages.contains_key(path),
        server.kept(path, page).cached_pages[path] == page,
        server.kept(path, page).located(
            stream,
            path,
            Lookup { exists: true, is_dir: false, size },
        ) == (
            server.kept(path, page).began(stream.id),
            ActionView::ServeCached { path, start: server.has_permit() },
        ),
{
}

/// A page for which there is no room is not kept, and a page that is larger than the cache never
/// has room.
pub proof fn law_large_page_is_not_kept(server: ServerView, path: Seq<char>, page: Seq<u8>)
    requires
        !server.keeps(path, page) || page.len() > server.cached_threshold,
    ensures
        server.kept(path, page) == server,
{
}

/// A page that is kept is never dropped, whatever page is kept after it; only a newer page of
/// the same path takes its place.
pub proof fn law_kept_pages_stay(
    server: ServerView,
    path: Seq<char>,
    other: Seq<char>,
    page: Seq<u8>,
)
    requires
        server.cached_pages.contains_key(path),
    ensures
        server.kept(other, page).cached_pages.contains_key(path),
        other != path ==> server.kept(other, page).cached_pages[path] == server.cached_pages[path],
{
}

/// Whatever happens, the pages that are kept are together not larger than the cache, and so is
/// each of them.
pub proof fn law_cache_stays_within_its_size(server: ServerView, events: Seq<EventView>)
    requires
        server.wf(),
    ensures
        cache::total(after(server, events).cached_pages) <= server.cached_threshold,
        forall|path: Seq<char>| #[trigger]
            after(server, events).cached_pages.contains_key(path) ==> after(
                server,
                events,
            ).cached_pages[path].len() <= server.cached_threshold,
{
    law_server_stays_sound(server, events);
    lemma_settings_stay(server, events);
    let last = after(server, events);
    assert forall|path: Seq<char>| #[trigger]
        last.cached_pages.contains_key(path) implies last.cached_pages[path].len()
        <= server.cached_threshold by {
        cache::lemma_total_remove(last.cached_pages, path);
    }
}

proof fn lemma_settings_stay(server: ServerView, events: Seq<EventView>)
    ensures
        after(server, events).cached_threshold == server.cached_threshold,
        after(server, events).tasks.capacity == server.tasks.capacity,
    decreases events.len(),
{
    if events.len() > 0 {
        lemma_settings_stay(server, events.drop_last());
    }
}

/// What the server does: it answers an event, or takes a step in the work on a static file.
pub enum Happening {
    Event(EventView),
    File(TransferView, FileEventView),
}

/// The server after a sequence of happenings.
pub open spec fn after_all(server: ServerView, happenings: Seq<Happening>) -> ServerView
    decreases happenings.len(),
{
    if happenings.len() == 0 {
        server
    } else {
        let before = after_all(server, happenings.drop_last());
        match happenings.last() {
            Happening::Event(event) => before.stepped(event).0,
            Happening::File(transfer, event) => before.transferred(transfer, event).0,
        }
    }
}

/// In every state that a sound server reaches, files that are read and sent among the rest, the
/// pages that are kept are together within the size of the cache, and no more static files are
/// served at a time than there are tasks.
pub proof fn law_limits_hold_throughout(server: ServerView, happenings: Seq<Happening>)
    requires
        server.wf(),
    ensures
        after_all(server, happenings).wf(),
        cache::total(after_all(server, happenings).cached_pages) <= server.cached_threshold,
        after_all(server, happenings).serving() <= server.tasks.capacity,
    decreases happenings.len(),
{
    if happenings.len() > 0 {
        law_limits_hold_throughout(server, happenings.drop_last());
        let before = after_all(server, happenings.drop_last());
        lemma_all_settings_stay(server, happenings);
        match happenings.last() {
            Happening::Event(event) => {
                law_server_stays_sound(before, seq![event]);
                assert(seq![event].drop_last() =~= seq![]);
                assert(after(before, seq![event].drop_last()) == before);
            },
            Happening::File(transfer, event) => {
                law_transfers_stay_within_the_cache(before, transfer, event);
            },
        }
    }
}

proof fn lemma_all_settings_stay(server: ServerView, happenings: Seq<Happening>)
    ensures
        after_all(server, happenings).cached_threshold == server.cached_threshold,
        after_all(server, happenings).tasks.capacity == server.tasks.capacity,
    decreases happenings.len(),
{
    if happenings.len() > 0 {
        lemma_all_settings_stay(server, happenings.drop_last());
    }
}

/// Whether an action starts a task that serves a static file.
pub open spec fn starts_task(action: ActionView) -> bool {
    match action {
        ActionView::Serve { stream, request, start } => start,
        ActionView::ServeCached { path, start } => start,
        ActionView::Start { stream } => true,
        _ => false,
    }
}

/// How many tasks that serve static files a sequence of events starts.
pub open spec fn started(server: ServerView, events: Seq<EventView>) -> nat
    decreases events.len(),
{
    if events.len() == 0 {
        0
    } else {
        let before = events.drop_last();
        started(server, before) + if starts_task(
            after(server, before).stepped(events.last()).1,
        ) {
            1nat
        } else {
            0nat
        }
    }
}

/// How many of a sequence of events are the ends of tasks that serve static files.
pub open spec fn ended(events: Seq<EventView>) -> nat {
    events.filter(|e: EventView| e == EventView::Served).len()
}

/// Whether no task ends before it has started.
pub open spec fn ends_in_order(server: ServerView, events: Seq<EventView>) -> bool {
    forall|n: int|
        0 <= n < events.len() && events[n] == EventView::Served ==> ended(
            #[trigger] events.take(n),
        ) < started(server, events.take(n))
}

/// Every task that serves a static file holds exactly one permit from its start to its end: the
/// permits that are held are those of the tasks that have started and not ended.
pub proof fn law_one_permit_for_each_task(server: ServerView, events: Seq<EventView>)
    requires
        server.wf(),
        server.serving() == 0,
        ends_in_order(server, events),
    ensures
        after(server, events).serving() == started(server, events) - ended(events),
    decreases events.len(),
{
    reveal(Seq::filter);
    if events.len() > 0 {
        let earlier = events.drop_last();
        assert forall|n: int|
            0 <= n < earlier.len() && earlier[n] == EventView::Served implies ended(
            #[trigger] earlier.take(n),
        ) < started(server, earlier.take(n)) by {
            assert(earlier.take(n) =~= events.take(n));
            assert(events[n] == earlier[n]);
        }
        law_one_permit_for_each_task(server, earlier);
        law_server_stays_sound(server, earlier);
        assert(events.take(events.len() - 1) =~= earlier);
    }
}

/// At every moment at most as many static files are served as there are tasks.
pub proof fn law_at_most_tasks_are_served(server: ServerView, events: Seq<EventView>)
    requires
        server.wf(),
        server.serving() == 0,
        ends_in_order(server, events),
    ensures
        after(server, events).serving() <= server.tasks.capacity,
        started(server, events) - ended(events) <= server.tasks.capacity,
{
    law_one_permit_for_each_task(server, events);
    law_server_stays_sound(server, events);
    lemma_settings_stay(server, events);
}

/// When every task that has started has ended, every permit is free, and no task waits for one.
pub proof fn law_all_permits_are_given_back(server: ServerView, events: Seq<EventView>)
    requires
        server.wf(),
        server.serving() == 0,
        server.tasks.capacity > 0,
        ends_in_order(server, events),
        started(server, events) == ended(events),
    ensures
        after(server, events).serving() == 0,
        after(server, events).tasks.waiting.len() == 0,
{
    law_one_permit_for_each_task(server, events);
    law_server_stays_sound(server, events);
    lemma_settings_stay(server, events);
}

/// One task is enough for one request: where there is a permit and none is held, the first request
/// that waits is served at once, and when its task has ended its permit is free again.
pub proof fn law_one_task_is_enough(server: ServerView)
    requires
        server.wf(),
        server.tasks.capacity >= 1,
        server.serving() == 0,
        server.queue.len() > 0,
        server.streams.contains_key(server.queue[0].peer_name),
    ensures
        server.has_permit(),
        server.stepped(EventView::Notified).1 == (ActionView::Serve {
            stream: server.streams[server.queue[0].peer_name],
            request: server.queue[0],
            start: true,
        }),
        server.stepped(EventView::Notified).0.serving() == 1,
        server.stepped(EventView::Notified).0.stepped(EventView::Served).0.tasks == server.tasks,
{
}

/// Tasks that wait start in turn: each task that ends starts the one that has waited longest, and
/// the number of static files that are served stays the same.
pub proof fn law_waiting_tasks_start_in_turn(server: ServerView, n: nat)
    requires
        server.wf(),
        server.tasks.capacity > 0,
        n <= server.tasks.waiting.len(),
    ensures
        ({
            let ends = Seq::new(n, |i: int| EventView::Served);
            &&& after(server, ends).tasks == (SemaphoreView {
                waiting: server.tasks.waiting.skip(n as int),
                ..server.tasks
            })
            &&& forall|i: int|
                0 <= i < n ==> #[trigger] action_at(server, ends, i) == (ActionView::Start {
                    stream: server.tasks.waiting[i],
                })
        }),
    decreases n,
{
    let ends = Seq::new(n, |i: int| EventView::Served);
    if n == 0 {
        assert(server.tasks.waiting.skip(0) =~= server.tasks.waiting);
    } else {
        let fewer = (n - 1) as nat;
        let earlier = Seq::new(fewer, |i: int| EventView::Served);
        law_waiting_tasks_start_in_turn(server, fewer);
        assert(ends.drop_last() =~= earlier);
        assert(ends.take(fewer as int) =~= earlier);
        assert(server.tasks.waiting.skip(fewer as int).skip(1) =~= server.tasks.waiting.skip(
            n as int,
        ));
        assert forall|i: int| 0 <= i < n implies #[trigger] action_at(server, ends, i) == (
        ActionView::Start { stream: server.tasks.waiting[i] }) by {
            if i < fewer {
                assert(ends.take(i) =~= earlier.take(i));
                assert(action_at(server, earlier, i) == (ActionView::Start {
                    stream: server.tasks.waiting[i],
                }));
            }
        }
    }
}

/// A permit that was granted and given back leaves the permits as they were.
pub proof fn law_release_undoes_acquire(tasks: SemaphoreView, task: u64)
    requires
        tasks.wf(),
        tasks.held < tasks.capacity,
    ensures
        tasks.acquired(task).released() == tasks,
{
}

} // verus!
