//! The requests for static files that wait to be served.

use vstd::prelude::*;

use crate::text;
use crate::text::split;

verus! {

/// A request for a static file.
#[allow(non_camel_case_types)]
#[derive(Debug)]
pub struct HTTP_Request {
    /// The name under which the stream of the request is kept.
    pub peer_name: String,
    /// The file that is asked for.
    pub path: String,
    /// The size of that file in bytes.
    pub size: u64,
}

/// What an `HTTP_Request` holds.
pub struct RequestView {
    pub peer_name: Seq<char>,
    pub path: Seq<char>,
    pub size: u64,
}

impl View for HTTP_Request {
    type V = RequestView;

    open spec fn view(&self) -> RequestView {
        RequestView { peer_name: self.peer_name@, path: self.path@, size: self.size }
    }
}

/// Whether a peer name holds a dot, as every dotted address does.
pub open spec fn is_dotted(peer_name: Seq<char>) -> bool {
    peer_name.contains('.')
}

/// Whether a peer is one of those that are served first: its address starts with `128.143.` or
/// with `137.54.`.
pub open spec fn has_priority(peer_name: Seq<char>) -> bool {
    let pieces = text::split_spec(peer_name, '.');
    ||| pieces[0] == "128"@ && pieces[1] == "143"@
    ||| pieces[0] == "137"@ && pieces[1] == "54"@
}

/// The first position at or after `from` whose request has no priority, or else the length.
pub open spec fn run_end(queue: Seq<RequestView>, from: int) -> int
    decreases queue.len() - from,
{
    if from < queue.len() && has_priority(queue[from].peer_name) {
        run_end(queue, from + 1)
    } else {
        from
    }
}

/// Where the search for the place of a request starts: behind the requests with priority that
/// the queue starts with, if the request has priority and there are any, and else at the end.
pub open spec fn start_index(queue: Seq<RequestView>, request: RequestView) -> int {
    if has_priority(request.peer_name) && run_end(queue, 0) > 0 {
        run_end(queue, 0)
    } else {
        queue.len() as int
    }
}

/// The place that a request of the given size reaches from `at`, passing every request before
/// it that is for a larger file until it meets one that is not.
pub open spec fn settle(queue: Seq<RequestView>, size: u64, at: int) -> int
    decreases at,
{
    if at > 0 && size < queue[at - 1].size {
        settle(queue, size, at - 1)
    } else {
        at
    }
}

/// The place that a request takes in the queue.
pub open spec fn insert_index(queue: Seq<RequestView>, request: RequestView) -> int {
    settle(queue, request.size, start_index(queue, request))
}

/// The queue once a request has taken its place.
pub open spec fn enqueued(queue: Seq<RequestView>, request: RequestView) -> Seq<RequestView> {
    queue.insert(insert_index(queue, request), request)
}

/// A name with a dot has at least two pieces.
proof fn lemma_dotted_has_two_pieces(peer_name: Seq<char>)
    requires
        is_dotted(peer_name),
    ensures
        text::split_spec(peer_name, '.').len() >= 2,
{
    text::lemma_find_char(peer_name, '.', 0);
    let i = text::find_char(peer_name, '.', 0)->0;
    assert(text::split_from(peer_name, '.', i + 1).len() > 0);
}

/// The run of requests with priority ends inside the queue or at its end.
proof fn lemma_run_end_bounds(queue: Seq<RequestView>, from: int)
    requires
        0 <= from <= queue.len(),
    ensures
        from <= run_end(queue, from) <= queue.len(),
        forall|i: int|
            from <= i < run_end(queue, from) ==> has_priority(#[trigger] queue[i].peer_name),
        run_end(queue, from) < queue.len() ==> !has_priority(
            queue[run_end(queue, from)].peer_name,
        ),
    decreases queue.len() - from,
{
    if from < queue.len() && has_priority(queue[from].peer_name) {
        lemma_run_end_bounds(queue, from + 1);
    }
}

/// A request settles at or before the place where it starts. It passes larger files only, and
/// the one before its place, if any, is no larger.
proof fn lemma_settle(queue: Seq<RequestView>, size: u64, at: int)
    requires
        0 <= at <= queue.len(),
    ensures
        0 <= settle(queue, size, at) <= at,
        forall|i: int| settle(queue, size, at) <= i < at ==> size < (#[trigger] queue[i]).size,
        settle(queue, size, at) > 0 ==> queue[settle(queue, size, at) - 1].size <= size,
    decreases at,
{
    if at > 0 && size < queue[at - 1].size {
        lemma_settle(queue, size, at - 1);
    }
}

/// Whether no request stands before one for a smaller file.
pub open spec fn shortest_first(queue: Seq<RequestView>) -> bool {
    forall|i: int, j: int|
        0 <= i < j < queue.len() ==> (#[trigger] queue[i]).size <= (#[trigger] queue[j]).size
}

/// A request that comes in takes one place; no request is lost, doubled or changed, and those
/// that waited before keep their order.
pub proof fn law_enqueue_only_adds(queue: Seq<RequestView>, request: RequestView)
    ensures
        0 <= insert_index(queue, request) <= queue.len(),
        enqueued(queue, request).len() == queue.len() + 1,
        enqueued(queue, request)[insert_index(queue, request)] == request,
        enqueued(queue, request).remove(insert_index(queue, request)) == queue,
        enqueued(queue, request).to_multiset() == queue.to_multiset().insert(request),
{
    lemma_run_end_bounds(queue, 0);
    lemma_settle(queue, request.size, start_index(queue, request));
    let at = insert_index(queue, request);
    assert(enqueued(queue, request).remove(at) =~= queue);
    queue.to_multiset_ensures();
    enqueued(queue, request).to_multiset_ensures();
    assert(enqueued(queue, request).to_multiset() =~= queue.to_multiset().insert(request));
}

/// A request passes requests for larger files only, and stops behind one that is not larger.
pub proof fn law_only_larger_files_are_passed(queue: Seq<RequestView>, request: RequestView)
    ensures
        forall|i: int|
            insert_index(queue, request) <= i < start_index(queue, request) ==> request.size < (
            #[trigger] queue[i]).size,
        insert_index(queue, request) > 0 ==> queue[insert_index(queue, request) - 1].size
            <= request.size,
{
    lemma_run_end_bounds(queue, 0);
    lemma_settle(queue, request.size, start_index(queue, request));
}

/// As long as no request overtakes by its priority, the smallest file is served first: a request
/// stands behind every request for a file that is not larger, those of equal size among them,
/// and before every request for a larger file.
pub proof fn law_shortest_first(queue: Seq<RequestView>, request: RequestView)
    requires
        shortest_first(queue),
        start_index(queue, request) == queue.len(),
    ensures
        shortest_first(enqueued(queue, request)),
        forall|i: int|
            0 <= i < insert_index(queue, request) ==> (#[trigger] queue[i]).size <= request.size,
        forall|i: int|
            insert_index(queue, request) <= i < queue.len() ==> request.size < (
            #[trigger] queue[i]).size,
{
    lemma_settle(queue, request.size, queue.len() as int);
    let at = insert_index(queue, request);
    let after = enqueued(queue, request);
    assert forall|i: int| 0 <= i < at implies (#[trigger] queue[i]).size <= request.size by {
        assert(queue[i].size <= queue[at - 1].size);
    }
    assert forall|i: int, j: int| 0 <= i < j < after.len() implies (#[trigger] after[i]).size <= (
    #[trigger] after[j]).size by {
        let old_i = if i < at { i } else { i - 1 };
        let old_j = if j < at { j } else { j - 1 };
        if i != at && j != at {
            assert(after[i] == queue[old_i]);
            assert(after[j] == queue[old_j]);
        }
    }
}

/// A request without priority never overtakes by where it comes from: its place is that of its
/// size alone.
pub proof fn law_no_priority_starts_at_the_end(queue: Seq<RequestView>, request: RequestView)
    requires
        !has_priority(request.peer_name),
    ensures
        insert_index(queue, request) == settle(queue, request.size, queue.len() as int),
{
}

/// Where the queue starts with requests that have priority, one more with priority joins them:
/// only requests with priority stand before it, and the run of them grows by one.
pub proof fn law_priority_joins_the_front(queue: Seq<RequestView>, request: RequestView)
    requires
        has_priority(request.peer_name),
        run_end(queue, 0) > 0,
    ensures
        insert_index(queue, request) <= run_end(queue, 0),
        forall|i: int|
            0 <= i <= insert_index(queue, request) ==> has_priority(
                (#[trigger] enqueued(queue, request)[i]).peer_name,
            ),
        run_end(enqueued(queue, request), 0) == run_end(queue, 0) + 1,
{
    lemma_run_end_bounds(queue, 0);
    let run = run_end(queue, 0);
    lemma_settle(queue, request.size, run);
    let at = insert_index(queue, request);
    let after = enqueued(queue, request);
    assert forall|i: int| 0 <= i <= run implies has_priority(
        (#[trigger] after[i]).peer_name,
    ) by {
        if i < at {
            assert(after[i] == queue[i]);
        } else if i > at {
            assert(after[i] == queue[i - 1]);
        }
    }
    if run + 1 < after.len() {
        assert(after[run + 1] == queue[run]);
    }
    lemma_run_end_is(after, 0, run + 1);
}

/// A run of requests with priority that another request or the end follows ends there.
proof fn lemma_run_end_is(queue: Seq<RequestView>, from: int, end: int)
    requires
        0 <= from <= end <= queue.len(),
        forall|i: int| from <= i < end ==> has_priority((#[trigger] queue[i]).peer_name),
        end < queue.len() ==> !has_priority(queue[end].peer_name),
    ensures
        run_end(queue, from) == end,
    decreases end - from,
{
    if from < end {
        assert(has_priority(queue[from].peer_name));
        lemma_run_end_is(queue, from + 1, end);
    }
}

/// The peers that are served first are those whose address starts with `128.143` or `137.54`, as
/// whole numbers between dots.
pub proof fn law_priority_is_by_network(peer_name: Seq<char>)
    requires
        peer_name.contains('.'),
    ensures
        has_priority(peer_name) <==> {
            ||| peer_name == "128.143"@
            ||| "128.143."@.is_prefix_of(peer_name)
            ||| peer_name == "137.54"@
            ||| "137.54."@.is_prefix_of(peer_name)
        },
{
    reveal_strlit("128");
    reveal_strlit("143");
    reveal_strlit("137");
    reveal_strlit("54");
    reveal_strlit("128.143");
    reveal_strlit("128.143.");
    reveal_strlit("137.54");
    reveal_strlit("137.54.");
    lemma_starts_with_pieces(peer_name, "128"@, "143"@);
    lemma_starts_with_pieces(peer_name, "137"@, "54"@);
    assert("128"@.push('.') + "143"@ =~= "128.143"@);
    assert(("128"@.push('.') + "143"@).push('.') =~= "128.143."@);
    assert("137"@.push('.') + "54"@ =~= "137.54"@);
    assert(("137"@.push('.') + "54"@).push('.') =~= "137.54."@);
}

proof fn lemma_starts_with_pieces(peer_name: Seq<char>, a: Seq<char>, b: Seq<char>)
    requires
        peer_name.contains('.'),
        forall|i: int| 0 <= i < a.len() ==> a[i] != '.',
        forall|i: int| 0 <= i < b.len() ==> b[i] != '.',
    ensures
        ({
            let pieces = text::split_spec(peer_name, '.');
            pieces[0] == a && pieces[1] == b
        }) <==> {
            ||| peer_name == a.push('.') + b
            ||| (a.push('.') + b).push('.').is_prefix_of(peer_name)
        },
{
    let pieces = text::split_spec(peer_name, '.');
    text::lemma_first_piece_of(peer_name, '.');
    let rest = peer_name.skip(pieces[0].len() as int + 1);
    text::lemma_first_piece_of(rest, '.');
    assert(pieces[1] == text::split_spec(rest, '.')[0]);
    let both = a.push('.') + b;
    if pieces[0] == a && pieces[1] == b {
        if rest.contains('.') {
            let last = rest.skip(b.len() as int + 1);
            assert(peer_name =~= both.push('.') + last);
            assert(both.push('.').is_prefix_of(peer_name));
        } else {
            assert(peer_name =~= both);
        }
    }
    assert(!a.contains('.'));
    assert(!b.contains('.'));
    if peer_name == both {
        text::law_first_piece(a, '.', b);
        text::lemma_split_single(b, '.');
    } else if both.push('.').is_prefix_of(peer_name) {
        let last = peer_name.skip(both.len() as int + 1);
        assert(peer_name =~= both.push('.') + last);
        assert(peer_name =~= a.push('.') + (b.push('.') + last));
        text::law_first_piece(a, '.', b.push('.') + last);
        text::law_first_piece(b, '.', last);
    }
}

/// Where a request takes its place. One with priority starts behind the requests with priority
/// that the queue starts with, if there are any; every other starts at the end of the queue. From
/// there, `end`, it passes the requests before it as long as they are for larger files, and no
/// other.
pub proof fn law_place_in_the_queue(queue: Seq<RequestView>, request: RequestView, end: int)
    requires
        0 <= end <= queue.len(),
        if has_priority(request.peer_name) && queue.len() > 0 && has_priority(queue[0].peer_name) {
            &&& forall|i: int| 0 <= i < end ==> has_priority((#[trigger] queue[i]).peer_name)
            &&& end < queue.len() ==> !has_priority(queue[end].peer_name)
        } else {
            end == queue.len()
        },
    ensures
        exists|at: int|
            {
                &&& 0 <= at <= end
                &&& enqueued(queue, request) == #[trigger] queue.insert(at, request)
                &&& forall|i: int| at <= i < end ==> request.size < (#[trigger] queue[i]).size
                &&& at > 0 ==> queue[at - 1].size <= request.size
            },
{
    lemma_settle(queue, request.size, end);
    if has_priority(request.peer_name) && queue.len() > 0 && has_priority(queue[0].peer_name) {
        lemma_run_end_is(queue, 0, end);
    }
    let at = settle(queue, request.size, end);
    assert(enqueued(queue, request) == queue.insert(at, request));
}

/// A request passes only requests for larger files or, if it has priority, those that stand at or
/// behind the first request without priority.
pub proof fn law_only_these_are_passed(queue: Seq<RequestView>, request: RequestView)
    ensures
        exists|at: int|
            {
                &&& 0 <= at <= queue.len()
                &&& enqueued(queue, request) == #[trigger] queue.insert(at, request)
                &&& forall|i: int|
                    at <= i < queue.len() ==> {
                        ||| (#[trigger] queue[i]).size > request.size
                        ||| has_priority(request.peer_name) && exists|k: int|
                            0 <= k <= i && !has_priority((#[trigger] queue[k]).peer_name)
                    }
            },
{
    lemma_run_end_bounds(queue, 0);
    lemma_settle(queue, request.size, start_index(queue, request));
    let at = insert_index(queue, request);
    let end = run_end(queue, 0);
    assert forall|i: int| at <= i < queue.len() && queue[i].size <= request.size implies exists|
        k: int,
    | 0 <= k <= i && !has_priority((#[trigger] queue[k]).peer_name) by {
        assert(!has_priority(queue[end].peer_name));
    }
    assert(enqueued(queue, request) == queue.insert(at, request));
}

/// Among requests that all have priority, or that all have none, and that wait in the order of
/// their sizes, a request of the same kind takes its place in that order, behind those of its own
/// size.
pub proof fn law_equals_wait_in_order_of_size(queue: Seq<RequestView>, request: RequestView)
    requires
        shortest_first(queue),
        forall|i: int|
            0 <= i < queue.len() ==> has_priority((#[trigger] queue[i]).peer_name) == has_priority(
                request.peer_name,
            ),
    ensures
        forall|i: int, j: int|
            0 <= i < j < enqueued(queue, request).len() ==> (#[trigger] enqueued(
                queue,
                request,
            )[i]).size <= (#[trigger] enqueued(queue, request)[j]).size,
        enqueued(queue, request).len() == queue.len() + 1,
        exists|at: int|
            {
                &&& 0 <= at <= queue.len()
                &&& enqueued(queue, request) == #[trigger] queue.insert(at, request)
                &&& forall|i: int| 0 <= i < at ==> (#[trigger] queue[i]).size <= request.size
                &&& forall|i: int| at <= i < queue.len() ==> (#[trigger] queue[i]).size
                    > request.size
            },
{
    if queue.len() > 0 && has_priority(request.peer_name) {
        lemma_run_end_is(queue, 0, queue.len() as int);
    }
    law_shortest_first(queue, request);
    law_enqueue_only_adds(queue, request);
    assert(enqueued(queue, request) == queue.insert(insert_index(queue, request), request));
}

/// Where the queue starts with a request that has priority, one more with priority passes every
/// request without.
pub proof fn law_priority_passes_all_others(
    queue: Seq<RequestView>,
    request: RequestView,
    i: int,
)
    requires
        has_priority(request.peer_name),
        queue.len() > 0,
        has_priority(queue[0].peer_name),
        0 <= i < queue.len(),
        !has_priority(queue[i].peer_name),
    ensures
        enqueued(queue, request)[i + 1] == queue[i],
{
    lemma_run_end_bounds(queue, 0);
    lemma_settle(queue, request.size, run_end(queue, 0));
    assert(run_end(queue, 0) <= i);
}

/// Tells whether a peer is one of those that are served first.
pub fn is_priority(peer_name: &str) -> (yes: bool)
    requires
        is_dotted(peer_name@),
    ensures
        yes == has_priority(peer_name@),
{
    let pieces = split(peer_name, '.');
    proof {
        lemma_dotted_has_two_pieces(peer_name@);
        assert(text::texts(pieces@).len() == pieces@.len());
        assert(text::texts(pieces@)[0] == pieces@[0]@);
        assert(text::texts(pieces@)[1] == pieces@[1]@);
    }
    (pieces[0] == "128".to_owned() && pieces[1] == "143".to_owned()) || (pieces[0]
        == "137".to_owned() && pieces[1] == "54".to_owned())
}

/// The requests that wait, in the order in which they will be served.
pub struct RequestQueue {
    requests: Vec<HTTP_Request>,
}

impl View for RequestQueue {
    type V = Seq<RequestView>;

    closed spec fn view(&self) -> Seq<RequestView> {
        self.requests@.map_values(|r: HTTP_Request| r@)
    }
}

/// Every request in the queue comes from a peer with a dotted address.
pub open spec fn all_dotted(queue: Seq<RequestView>) -> bool {
    forall|i: int| 0 <= i < queue.len() ==> is_dotted(#[trigger] queue[i].peer_name)
}

impl RequestQueue {
    /// An empty queue.
    pub fn new() -> (queue: RequestQueue)
        ensures
            queue@ == Seq::<RequestView>::empty(),
    {
        let queue = RequestQueue { requests: Vec::new() };
        assert(queue@ =~= Seq::<RequestView>::empty());
        queue
    }

    /// How many requests wait.
    pub fn len(&self) -> (n: usize)
        ensures
            n == self@.len(),
    {
        self.requests.len()
    }

    /// Puts a request in its place among those that wait.
    pub fn insert(&mut self, request: HTTP_Request)
        requires
            all_dotted(old(self)@),
            is_dotted(request.peer_name@),
        ensures
            final(self)@ == enqueued(old(self)@, request@),
            all_dotted(final(self)@),
    {
        let ghost queue = self@;
        assert(queue.len() == self.requests@.len());
        let n: usize = self.requests.len();
        let mut at: usize = n;
        if is_priority(request.peer_name.as_str()) {
            let mut i: usize = 0;
            while i < n
                invariant
                    n == queue.len() == self.requests@.len(),
                    queue == self@,
                    all_dotted(queue),
                    i <= n,
                    at == (if i == 0 { n } else { i }),
                    run_end(queue, 0) == run_end(queue, i as int),
                ensures
                    run_end(queue, 0) == i,
                    i <= n,
                    at == (if i == 0 { n } else { i }),
                decreases n - i,
            {
                assert(queue[i as int] == self.requests@[i as int]@);
                if is_priority(self.requests[i].peer_name.as_str()) {
                    at = i + 1;
                } else {
                    break;
                }
                i = i + 1;
            }
        }
        assert(at == start_index(queue, request@));
        while at > 0
            invariant
                n == queue.len() == self.requests@.len(),
                queue == self@,
                at <= n,
                insert_index(queue, request@) == settle(queue, request.size, at as int),
            ensures
                at <= n,
                insert_index(queue, request@) == at,
            decreases at,
        {
            assert(queue[at - 1] == self.requests@[at - 1]@);
            if request.size < self.requests[at - 1].size {
                at = at - 1;
            } else {
                break;
            }
        }
        self.requests.insert(at, request);
        assert(self@ =~= enqueued(queue, request@));
    }

    /// Takes out the request that is served next.
    pub fn shift(&mut self) -> (request: Option<HTTP_Request>)
        ensures
            match request {
                Some(r) => old(self)@.len() > 0 && r@ == old(self)@[0] && final(self)@
                    == old(self)@.skip(1),
                None => old(self)@.len() == 0 && final(self)@ == old(self)@,
            },
    {
        let ghost queue = self@;
        assert(queue.len() == self.requests@.len());
        if self.requests.len() == 0 {
            None
        } else {
            assert(queue[0] == self.requests@[0]@);
            let request = self.requests.remove(0);
            assert(self@ =~= queue.skip(1));
            Some(request)
        }
    }
}

} // verus!
