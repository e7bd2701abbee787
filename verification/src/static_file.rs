//! Files that are sent as they are.
//!
//! A file that is not in memory is read and sent chunk by chunk. The outside world opens it,
//! reads it and sends what it is told to; each step is an event, answered with an action.

use vstd::prelude::*;

use crate::cache;
use crate::pages;
use crate::request::Failure;
use crate::server::{ServerView, WebServer};

verus! {

/// How many bytes of a file are read, and sent, at a time.
pub const CHUNK: usize = 256;

/// The work on one request for a static file.
pub struct StaticTransfer {
    path: String,
    size: Option<usize>,
    page: Vec<u8>,
}

/// What a `StaticTransfer` stands for.
pub struct TransferView {
    /// The path of the file.
    pub path: Seq<char>,
    /// The size of the file in bytes, once it is open.
    pub size: Option<nat>,
    /// What was read of it.
    pub page: Seq<u8>,
}

impl View for StaticTransfer {
    type V = TransferView;

    closed spec fn view(&self) -> TransferView {
        TransferView {
            path: self.path@,
            size: match self.size {
                Some(n) => Some(n as nat),
                None => None,
            },
            page: self.page@,
        }
    }
}

/// What happens while a static file is served.
pub enum FileEvent {
    /// The work begins.
    Begin,
    /// The file was opened, and is of this size.
    Opened { size: u64 },
    /// The next bytes of the file were read.
    Read(Vec<u8>),
    /// The last bytes of the answer were sent.
    Sent,
}

/// What a `FileEvent` holds.
pub enum FileEventView {
    Begin,
    Opened { size: u64 },
    Read(Seq<u8>),
    Sent,
}

impl View for FileEvent {
    type V = FileEventView;

    open spec fn view(&self) -> FileEventView {
        match *self {
            FileEvent::Begin => FileEventView::Begin,
            FileEvent::Opened { size } => FileEventView::Opened { size },
            FileEvent::Read(chunk) => FileEventView::Read(chunk@),
            FileEvent::Sent => FileEventView::Sent,
        }
    }
}

/// What to do after a `FileEvent`.
#[derive(Debug)]
pub enum FileAction {
    /// Open the file and find its size.
    Open,
    /// Send these bytes, and read as many from the file as are told.
    Continue { send: Vec<u8>, read: usize },
    /// Send these bytes, the last of the answer, and report that they were sent.
    Last { send: Vec<u8> },
    /// The work is done. `keeping` tells whether the page is one that is kept from now on.
    Finish { keeping: bool },
    /// End the task.
    Fail(Failure),
}

/// What a `FileAction` holds.
pub enum FileActionView {
    Open,
    Continue { send: Seq<u8>, read: nat },
    Last { send: Seq<u8> },
    Finish { keeping: bool },
    Fail(Failure),
}

impl View for FileAction {
    type V = FileActionView;

    open spec fn view(&self) -> FileActionView {
        match *self {
            FileAction::Open => FileActionView::Open,
            FileAction::Continue { send, read } => FileActionView::Continue {
                send: send@,
                read: read as nat,
            },
            FileAction::Last { send } => FileActionView::Last { send: send@ },
            FileAction::Finish { keeping } => FileActionView::Finish { keeping },
            FileAction::Fail(failure) => FileActionView::Fail(failure),
        }
    }
}

impl TransferView {
    /// The work on a request for a path, before it begins.
    pub open spec fn initial(path: Seq<char>) -> TransferView {
        TransferView { path, size: None, page: seq![] }
    }

    /// No more was read than the file holds.
    pub open spec fn wf(self) -> bool {
        self.size matches Some(n) ==> self.page.len() <= n <= usize::MAX
    }

    /// How many bytes are read next: a chunk, or what is left if that is less.
    pub open spec fn next_read(self) -> nat {
        let left = (self.size->0 - self.page.len()) as nat;
        if left > CHUNK {
            CHUNK as nat
        } else {
            left
        }
    }

    /// Whether a file was opened and read as a whole.
    pub open spec fn complete(self) -> bool {
        self.size == Some(self.page.len())
    }

    /// Whether an event can happen now: what is read is what was asked for, and a file that was
    /// opened is read as a whole before the answer is.
    pub open spec fn expects(self, event: FileEventView) -> bool {
        match event {
            FileEventView::Read(chunk) => self.size is Some && chunk.len() == self.next_read(),
            FileEventView::Sent => self.size is None || self.complete(),
            _ => true,
        }
    }
}

impl ServerView {
    /// The server, the work and the action after an event in the work on a static file.
    ///
    /// A page that is kept is sent from memory. Any other is read, and sent after `HTTP_OK`; once
    /// it was sent as a whole it is kept, if there is room for it.
    pub open spec fn transferred(self, transfer: TransferView, event: FileEventView) -> (
        ServerView,
        TransferView,
        FileActionView,
    ) {
        match event {
            FileEventView::Begin => if self.cached_pages.contains_key(transfer.path) {
                let page = self.cached_pages[transfer.path];
                (self, transfer, FileActionView::Last { send: pages::static_page(page) })
            } else {
                (self, transfer, FileActionView::Open)
            },
            FileEventView::Opened { size } => if size > usize::MAX {
                (self, transfer, FileActionView::Fail(Failure::TooLarge))
            } else {
                let next = TransferView { size: Some(size as nat), page: seq![], ..transfer };
                let send = vstd::utf8::encode_utf8(pages::HTTP_OK@);
                (self, next, FileActionView::Continue { send, read: next.next_read() })
            },
            FileEventView::Read(chunk) => {
                let next = TransferView { page: transfer.page + chunk, ..transfer };
                if next.complete() {
                    (self, next, FileActionView::Last { send: chunk })
                } else {
                    (self, next, FileActionView::Continue { send: chunk, read: next.next_read() })
                }
            },
            FileEventView::Sent => if transfer.complete() {
                (
                    self.kept(transfer.path, transfer.page),
                    transfer,
                    FileActionView::Finish { keeping: self.keeps(transfer.path, transfer.page) },
                )
            } else {
                (self, transfer, FileActionView::Finish { keeping: false })
            },
        }
    }

    /// The server once an open file was read and sent to its end, and what was sent meanwhile, if
    /// `file` is what the file holds.
    pub open spec fn read_through(self, transfer: TransferView, file: Seq<u8>) -> (
        ServerView,
        Seq<u8>,
    )
        decreases file.len() - transfer.page.len(),
        when transfer.wf() && transfer.size == Some(file.len())
    {
        let at = transfer.page.len() as int;
        let chunk = file.subrange(at, at + transfer.next_read());
        let (server, next, action) = self.transferred(transfer, FileEventView::Read(chunk));
        match action {
            FileActionView::Continue { send, read } => {
                let (last, rest) = server.read_through(next, file);
                (last, send + rest)
            },
            _ => (server.transferred(next, FileEventView::Sent).0, action->Last_send),
        }
    }
}

impl StaticTransfer {
    /// The work on a request for a path, before it begins.
    pub fn new(path: String) -> (transfer: StaticTransfer)
        ensures
            transfer@ == TransferView::initial(path@),
            transfer@.wf(),
    {
        StaticTransfer { path, size: None, page: Vec::new() }
    }
}

impl WebServer {
    /// What to do after an event in the work on a static file.
    pub fn respond_with_static_file(
        &mut self,
        transfer: &mut StaticTransfer,
        event: FileEvent,
    ) -> (action: FileAction)
        requires
            old(self)@.wf(),
            old(transfer)@.wf(),
            old(transfer)@.expects(event@),
        ensures
            (final(self)@, final(transfer)@, action@) == old(self)@.transferred(
                old(transfer)@,
                event@,
            ),
            final(self)@.wf(),
            final(transfer)@.wf(),
    {
        match event {
            FileEvent::Begin => match self.kept_page(transfer.path.as_str()) {
                Some(page) => {
                    let mut send = pages::HTTP_OK.as_bytes_vec();
                    send.extend_from_slice(page.as_slice());
                    assert(send@ =~= pages::static_page(page@));
                    FileAction::Last { send }
                },
                None => FileAction::Open,
            },
            FileEvent::Opened { size } => {
                if size as u128 > usize::MAX as u128 {
                    return FileAction::Fail(Failure::TooLarge);
                }
                let size: usize = size as usize;
                transfer.size = Some(size);
                transfer.page = Vec::new();
                let read: usize = if size > CHUNK { CHUNK } else { size };
                FileAction::Continue { send: pages::HTTP_OK.as_bytes_vec(), read }
            },
            FileEvent::Read(chunk) => {
                let size: usize = match transfer.size {
                    Some(n) => n,
                    None => 0,
                };
                let ghost before = transfer@.page;
                transfer.page.extend_from_slice(chunk.as_slice());
                assert(transfer.page@ =~= before + chunk@);
                let left: usize = size - transfer.page.len();
                if left == 0 {
                    FileAction::Last { send: chunk }
                } else {
                    let read: usize = if left > CHUNK { CHUNK } else { left };
                    FileAction::Continue { send: chunk, read }
                }
            },
            FileEvent::Sent => match transfer.size {
                Some(_) => {
                    let keeping = self.keep_page(transfer.path.as_str(), &transfer.page);
                    FileAction::Finish { keeping }
                },
                None => FileAction::Finish { keeping: false },
            },
        }
    }
}

/// A file that is not kept is answered with `HTTP_OK` and the whole file, in that order, whatever
/// its size. Afterwards the server keeps the page, if there is room for it, and is otherwise as it was.
pub proof fn law_static_file_is_sent_whole(server: ServerView, path: Seq<char>, file: Seq<u8>)
    requires
        file.len() <= usize::MAX,
        file.len() <= u64::MAX,
        !server.cached_pages.contains_key(path),
    ensures
        ({
            let start = TransferView::initial(path);
            let opened = server.transferred(
                start,
                FileEventView::Opened { size: file.len() as u64 },
            );
            let (last, sent) = opened.0.read_through(opened.1, file);
            &&& server.transferred(start, FileEventView::Begin) == (
                server,
                start,
                FileActionView::Open,
            )
            &&& opened.2 matches FileActionView::Continue { send, read } && send + sent
                == vstd::utf8::encode_utf8(pages::HTTP_OK@) + file
            &&& last == server.kept(path, file)
        }),
{
    let opened = TransferView { path, size: Some(file.len()), page: seq![] };
    assert(opened.page =~= file.take(0));
    lemma_read_through(server, opened, file);
    assert(file.skip(0) =~= file);
}

proof fn lemma_read_through(server: ServerView, transfer: TransferView, file: Seq<u8>)
    requires
        transfer.wf(),
        transfer.size == Some(file.len()),
        transfer.page == file.take(transfer.page.len() as int),
    ensures
        server.read_through(transfer, file) == (
            server.kept(transfer.path, file),
            file.skip(transfer.page.len() as int),
        ),
    decreases file.len() - transfer.page.len(),
{
    let at = transfer.page.len() as int;
    let chunk = file.subrange(at, at + transfer.next_read());
    let next = TransferView { page: transfer.page + chunk, ..transfer };
    assert(next.page =~= file.take(next.page.len() as int));
    if next.page.len() == file.len() {
        assert(next.page =~= file);
        assert(chunk =~= file.skip(at));
    } else {
        lemma_read_through(server, next, file);
        assert(chunk + file.skip(next.page.len() as int) =~= file.skip(at));
    }
}

/// A page that was read is sent from memory from then on, the same as when it was read.
pub proof fn law_kept_file_is_sent_again(server: ServerView, path: Seq<char>, file: Seq<u8>)
    requires
        server.keeps(path, file),
    ensures
        server.kept(path, file).transferred(TransferView::initial(path), FileEventView::Begin).2
            == (FileActionView::Last {
            send: vstd::utf8::encode_utf8(pages::HTTP_OK@) + file,
        }),
{
}

/// A page that is kept is sent from memory, with `HTTP_OK` before it and in one go, whatever its
/// size; the file is not opened. Any other file is opened. Nothing changes by that.
pub proof fn law_only_kept_pages_are_in_memory(server: ServerView, transfer: TransferView)
    ensures
        server.cached_pages.contains_key(transfer.path) ==> server.transferred(
            transfer,
            FileEventView::Begin,
        ) == (
            server,
            transfer,
            FileActionView::Last {
                send: vstd::utf8::encode_utf8(pages::HTTP_OK@)
                    + server.cached_pages[transfer.path],
            },
        ),
        !server.cached_pages.contains_key(transfer.path) ==> server.transferred(
            transfer,
            FileEventView::Begin,
        ) == (server, transfer, FileActionView::Open),
        transfer.size is None ==> server.transferred(transfer, FileEventView::Sent) == (
            server,
            transfer,
            FileActionView::Finish { keeping: false },
        ),
{
}

/// The work on a request begins with its path, and with nothing of the file.
pub proof fn law_work_begins_with_the_path(path: Seq<char>)
    ensures
        TransferView::initial(path).path == path,
        TransferView::initial(path).size is None,
        TransferView::initial(path).page.len() == 0,
{
}

/// A file that is opened is read from its start, whatever its size and whatever was kept before.
/// Only one whose size cannot be counted is refused.
pub proof fn law_file_is_read_from_its_start(
    server: ServerView,
    transfer: TransferView,
    size: u64,
)
    ensures
        ({
            let (after, next, action) = server.transferred(
                transfer,
                FileEventView::Opened { size },
            );
            if size <= usize::MAX {
                &&& after == server
                &&& next.path == transfer.path
                &&& next.size == Some(size as nat)
                &&& next.page.len() == 0
                &&& action == (FileActionView::Continue {
                    send: vstd::utf8::encode_utf8(pages::HTTP_OK@),
                    read: if size < 256 {
                        size as nat
                    } else {
                        256
                    },
                })
            } else {
                &&& after == server
                &&& next == transfer
                &&& action == FileActionView::Fail(Failure::TooLarge)
            }
        }),
{
}

/// What is read of a file is sent, and nothing else; reading goes on by pieces of 256 bytes until
/// nothing is left.
pub proof fn law_what_is_read_is_sent(
    server: ServerView,
    transfer: TransferView,
    chunk: Seq<u8>,
)
    requires
        transfer.size is Some,
        transfer.page.len() + chunk.len() <= transfer.size->0,
    ensures
        ({
            let (after, next, action) = server.transferred(transfer, FileEventView::Read(chunk));
            let left = transfer.size->0 - transfer.page.len() - chunk.len();
            &&& after == server
            &&& next.path == transfer.path
            &&& next.size == transfer.size
            &&& next.page == transfer.page + chunk
            &&& left == 0 ==> action == (FileActionView::Last { send: chunk })
            &&& left > 0 ==> action == (FileActionView::Continue {
                send: chunk,
                read: if left < 256 {
                    left as nat
                } else {
                    256
                },
            })
        }),
{
}

/// Once a file was read and sent, its page is kept exactly if it is within the size of the cache
/// together with the pages of all other paths; it is kept as it was read, and no other page is
/// touched. The last action tells whether it is kept.
pub proof fn law_page_is_kept_if_there_is_room(server: ServerView, transfer: TransferView)
    requires
        transfer.size == Some(transfer.page.len()),
    ensures
        ({
            let (after, next, action) = server.transferred(transfer, FileEventView::Sent);
            let others = cache::total(server.cached_pages.remove(transfer.path));
            &&& next == transfer
            &&& others + transfer.page.len() <= server.cached_threshold ==> {
                &&& action == (FileActionView::Finish { keeping: true })
                &&& after == ServerView {
                    cached_pages: server.cached_pages.insert(transfer.path, transfer.page),
                    ..server
                }
            }
            &&& others + transfer.page.len() > server.cached_threshold ==> {
                &&& action == (FileActionView::Finish { keeping: false })
                &&& after == server
            }
        }),
{
}

/// Until the last bytes of an answer were sent, the work on it leaves the server as it was: an
/// answer that breaks off adds no page.
pub proof fn law_no_page_is_kept_before_it_is_sent(
    server: ServerView,
    transfer: TransferView,
    event: FileEventView,
)
    requires
        event != FileEventView::Sent,
    ensures
        server.transferred(transfer, event).0 == server,
        server.transferred(transfer, event).0.cached_pages == server.cached_pages,
{
}

/// What was sent is kept only if the whole file was read.
pub proof fn law_only_whole_pages_are_kept(server: ServerView, transfer: TransferView)
    ensures
        server.transferred(transfer, FileEventView::Sent).0 != server ==> transfer.size == Some(
            transfer.page.len(),
        ),
{
}

/// The work on a static file keeps a sound server sound: the pages that are kept stay together
/// within the size of the cache.
pub proof fn law_transfers_stay_within_the_cache(
    server: ServerView,
    transfer: TransferView,
    event: FileEventView,
)
    requires
        server.wf(),
    ensures
        server.transferred(transfer, event).0.wf(),
        cache::total(server.transferred(transfer, event).0.cached_pages)
            <= server.cached_threshold,
{
    if server.keeps(transfer.path, transfer.page) {
        cache::lemma_total_insert(server.cached_pages, transfer.path, transfer.page);
    }
}

/// No read asks for more than a chunk, and each but the last asks for a whole one.
pub proof fn law_reads_are_chunks(transfer: TransferView)
    requires
        transfer.wf(),
        transfer.size is Some,
    ensures
        transfer.next_read() <= 256,
        transfer.page.len() + transfer.next_read() <= transfer.size->0,
        transfer.page.len() + transfer.next_read() < transfer.size->0 ==> transfer.next_read()
            == 256,
        transfer.page.len() < transfer.size->0 ==> transfer.next_read() > 0,
{
}

/// The views of the events and the actions hold all that these do.
pub proof fn law_file_steps_are_seen_in_full(
    size: u64,
    bytes: Vec<u8>,
    read: usize,
    keeping: bool,
    failure: Failure,
)
    ensures
        FileEvent::Begin@ == FileEventView::Begin,
        FileEvent::Sent@ == FileEventView::Sent,
        (FileEvent::Opened { size })@ == (FileEventView::Opened { size }),
        FileEvent::Read(bytes)@ == FileEventView::Read(bytes@),
        FileAction::Open@ == FileActionView::Open,
        (FileAction::Continue { send: bytes, read })@ == (FileActionView::Continue {
            send: bytes@,
            read: read as nat,
        }),
        (FileAction::Last { send: bytes })@ == (FileActionView::Last { send: bytes@ }),
        (FileAction::Finish { keeping })@ == (FileActionView::Finish { keeping }),
        FileAction::Fail(failure)@ == FileActionView::Fail(failure),
{
}

} // verus!
