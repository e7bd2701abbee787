//! The answers that are sent to clients.

use vstd::prelude::*;

use crate::server::WebServer;
use crate::text;
use crate::text::{decimal, find};

verus! {

/// What comes before every page.
pub const HTTP_OK: &'static str =
    "HTTP/1.1 200 OK\r\nContent-Type: text/html; charset=UTF-8\r\n\r\n";

/// What comes before the message that a path cannot be opened.
pub const HTTP_BAD: &'static str = "HTTP/1.1 404 Not Found\r\n\r\n";

/// The start of the counter page.
pub const COUNTER_STYLE: &'static str = "<doctype !html><html><head><title>Hello, Rust!</title>
             <style>body { background-color: #884414; color: #FFEEAA}
                    h1 { font-size:2cm; text-align: center; color: black; text-shadow: 0 0 4mm red }
                    h2 { font-size:2cm; text-align: center; color: black; text-shadow: 0 0 4mm green }
             </style></head>
             <body>";

/// What stands before the number on the counter page.
pub const COUNTER_GREETING: &'static str = "<h1>Greetings, Krusty!</h1>
                     <h2>Visitor count: ";

/// What stands after the number on the counter page.
pub const COUNTER_END: &'static str = "</h2></body></html>\r\n";

/// What stands before a command in a dynamic page.
pub const EXEC_OPEN: &'static str = "<!--#exec cmd=\"";

/// What stands after a command in a dynamic page.
pub const EXEC_CLOSE: &'static str = "\" -->";

/// The answer to a request for a path that cannot be opened.
pub open spec fn error_page(path: Seq<char>) -> Seq<u8> {
    vstd::utf8::encode_utf8(HTTP_BAD@ + "Cannot open: "@ + path)
}

/// The answer that tells a client how many visitors there were.
pub open spec fn counter_page(visitor_count: nat) -> Seq<u8> {
    vstd::utf8::encode_utf8(
        HTTP_OK@ + COUNTER_STYLE@ + COUNTER_GREETING@ + text::decimal_spec(visitor_count)
            + COUNTER_END@,
    )
}

/// The answer that holds a file as it is.
pub open spec fn static_page(page: Seq<u8>) -> Seq<u8> {
    vstd::utf8::encode_utf8(HTTP_OK@) + page
}

/// Where the command of a dynamic page is: the position of the first `EXEC_OPEN` and that of
/// the first `EXEC_CLOSE`, provided that the second does not start before the first ends.
pub open spec fn directive(html: Seq<char>) -> Option<(int, int)> {
    match (text::find_spec(html, EXEC_OPEN@), text::find_spec(html, EXEC_CLOSE@)) {
        (Some(start), Some(end)) => if start + EXEC_OPEN@.len() <= end {
            Some((start, end))
        } else {
            None
        },
        _ => None,
    }
}

/// The command of a dynamic page.
pub open spec fn command(html: Seq<char>) -> Seq<char> {
    let (start, end) = directive(html)->0;
    html.subrange(start + EXEC_OPEN@.len(), end)
}

/// A dynamic page with what its command printed in place of the command.
pub open spec fn expanded(html: Seq<char>, run_result: Seq<char>) -> Seq<char> {
    let (start, end) = directive(html)->0;
    html.take(start) + run_result + html.skip(end + EXEC_CLOSE@.len())
}

/// The answer that holds a dynamic page.
pub open spec fn dynamic_page(html: Seq<char>, run_result: Seq<char>) -> Seq<u8> {
    vstd::utf8::encode_utf8(HTTP_OK@ + expanded(html, run_result))
}

/// Finds where the command of a dynamic page is.
fn find_directive(html: &str) -> (found: Option<(usize, usize)>)
    ensures
        match found {
            Some((start, end)) => directive(html@) == Some((start as int, end as int))
                && start + EXEC_OPEN@.len() <= end && end + EXEC_CLOSE@.len() <= html@.len(),
            None => directive(html@) is None,
        },
{
    proof {
        text::lemma_find_from(html@, EXEC_OPEN@, 0);
        text::lemma_find_from(html@, EXEC_CLOSE@, 0);
    }
    let open_len = EXEC_OPEN.unicode_len();
    match (find(html, EXEC_OPEN), find(html, EXEC_CLOSE)) {
        (Some(start), Some(end)) => if start <= end && open_len <= end - start {
            Some((start, end))
        } else {
            None
        },
        _ => None,
    }
}

impl WebServer {
    /// Writes the answer to a request for a path that cannot be opened.
    pub fn respond_with_error_page(path: &str) -> (response: Vec<u8>)
        ensures
            response@ == error_page(path@),
    {
        let mut response: String = HTTP_BAD.to_owned();
        response.append("Cannot open: ");
        response.append(path);
        response.as_str().as_bytes_vec()
    }

    /// Writes the counter page.
    pub fn respond_with_counter_page(visitor_count: usize) -> (response: Vec<u8>)
        ensures
            response@ == counter_page(visitor_count as nat),
    {
        let mut response: String = HTTP_OK.to_owned();
        response.append(COUNTER_STYLE);
        response.append(COUNTER_GREETING);
        response.append(decimal(visitor_count).as_str());
        response.append(COUNTER_END);
        response.as_str().as_bytes_vec()
    }

    /// The command that a dynamic page holds, if it holds one.
    pub fn dynamic_command(html: &str) -> (cmd: Option<String>)
        ensures
            match cmd {
                Some(c) => directive(html@) is Some && c@ == command(html@),
                None => directive(html@) is None,
            },
    {
        match find_directive(html) {
            Some((start, end)) => {
                let from = start + EXEC_OPEN.unicode_len();
                Some(html.substring_char(from, end).to_owned())
            },
            None => None,
        }
    }

    /// Writes the answer that holds a dynamic page, given what its command printed.
    pub fn respond_with_dynamic_page(html: &str, run_result: &str) -> (response: Vec<u8>)
        requires
            directive(html@) is Some,
        ensures
            response@ == dynamic_page(html@, run_result@),
    {
        let mut response: String = HTTP_OK.to_owned();
        let len = html.unicode_len();
        if let Some((start, end)) = find_directive(html) {
            let rest = end + EXEC_CLOSE.unicode_len();
            response.append(html.substring_char(0, start));
            response.append(run_result);
            response.append(html.substring_char(rest, len));
            assert(html@.subrange(0, start as int) =~= html@.take(start as int));
            assert(html@.subrange(rest as int, html@.len() as int) =~= html@.skip(rest as int));
            assert(response@ =~= HTTP_OK@ + expanded(html@, run_result@));
        }
        response.as_str().as_bytes_vec()
    }
}

/// A dynamic page is what stands before its command, the command between its marks, and what
/// stands after; the expanded page has the output of the command in place of all three, and is
/// sent behind `HTTP_OK`.
pub proof fn law_expansion_replaces_the_command(html: Seq<char>, run_result: Seq<char>)
    requires
        directive(html) is Some,
    ensures
        ({
            let (start, end) = directive(html)->0;
            let before = html.take(start);
            let after = html.skip(end + EXEC_CLOSE@.len());
            &&& html == before + EXEC_OPEN@ + command(html) + EXEC_CLOSE@ + after
            &&& expanded(html, run_result) == before + run_result + after
            &&& dynamic_page(html, run_result) == vstd::utf8::encode_utf8(
                HTTP_OK@ + before + run_result + after,
            )
        }),
{
    text::lemma_find_from(html, EXEC_OPEN@, 0);
    text::lemma_find_from(html, EXEC_CLOSE@, 0);
    let (start, end) = directive(html)->0;
    let open_end = start + EXEC_OPEN@.len();
    let close_end = end + EXEC_CLOSE@.len();
    assert(HTTP_OK@ + expanded(html, run_result) =~= HTTP_OK@ + html.take(start) + run_result
        + html.skip(close_end));
    assert(html =~= html.take(start) + html.subrange(start, open_end) + html.subrange(open_end, end)
        + html.subrange(end, close_end) + html.skip(close_end));
}

/// The error page says that nothing was found, and names the path as it is.
pub proof fn law_error_page_names_the_path(path: Seq<char>)
    ensures
        vstd::utf8::valid_utf8(error_page(path)),
        vstd::utf8::decode_utf8(error_page(path)) == HTTP_BAD@ + "Cannot open: "@ + path,
{
    broadcast use vstd::utf8::encode_utf8_valid_utf8;
    broadcast use vstd::utf8::encode_utf8_decode_utf8;

}

/// On the counter page, what stands between the greeting and the end is a number in decimal, and
/// it is read back as the count.
pub proof fn law_counter_page_shows_the_count(visitor_count: nat)
    ensures
        vstd::utf8::valid_utf8(counter_page(visitor_count)),
        ({
            let page = vstd::utf8::decode_utf8(counter_page(visitor_count));
            let front = HTTP_OK@ + COUNTER_STYLE@ + COUNTER_GREETING@;
            let shown = page.subrange(front.len() as int, page.len() - COUNTER_END@.len());
            &&& front.len() + COUNTER_END@.len() < page.len()
            &&& page == front + shown + COUNTER_END@
            &&& forall|i: int| 0 <= i < shown.len() ==> '0' <= #[trigger] shown[i] <= '9'
            &&& shown.len() > 1 ==> shown[0] != '0'
            &&& text::number(shown) == visitor_count
            &&& visitor_count <= usize::MAX ==> text::parse_usize_spec(shown) == Some(
                visitor_count as usize,
            )
        }),
{
    broadcast use vstd::utf8::encode_utf8_valid_utf8;
    broadcast use vstd::utf8::encode_utf8_decode_utf8;

    let written = text::decimal_spec(visitor_count);
    text::law_decimal_writes_the_number(visitor_count);
    if visitor_count <= usize::MAX {
        text::law_decimal_is_read_back(visitor_count as usize);
    }
    let page = vstd::utf8::decode_utf8(counter_page(visitor_count));
    let front = HTTP_OK@ + COUNTER_STYLE@ + COUNTER_GREETING@;
    assert(page == front + written + COUNTER_END@);
    assert(page.subrange(front.len() as int, page.len() - COUNTER_END@.len()) =~= written);
}

/// Different counts make different pages.
pub proof fn law_counter_pages_differ(a: nat, b: nat)
    requires
        a != b,
    ensures
        counter_page(a) != counter_page(b),
{
    law_counter_page_shows_the_count(a);
    law_counter_page_shows_the_count(b);
}

/// A static page is `HTTP_OK` and the file, whatever the file is and however long.
pub proof fn law_static_page_is_header_and_file(file: Seq<u8>)
    ensures
        static_page(file) == vstd::utf8::encode_utf8(HTTP_OK@) + file,
{
}

/// Whether `mark` stands in a text at a position, and nowhere before it.
pub open spec fn stands_first(text: Seq<char>, mark: Seq<char>, at: int) -> bool {
    &&& 0 <= at <= text.len() - mark.len()
    &&& text.subrange(at, at + mark.len()) == mark
    &&& forall|i: int| 0 <= i < at ==> #[trigger] text.subrange(i, i + mark.len()) != mark
}

/// A dynamic page has a command if the first `EXEC_CLOSE` does not start before the end of the
/// first `EXEC_OPEN`. The command is what stands between the two. The answer is `HTTP_OK`, what
/// stands before the first mark, all that the command has printed, and what stands behind the
/// second mark.
pub proof fn law_dynamic_page_holds_the_output(
    html: Seq<char>,
    start: int,
    end: int,
    run_result: Seq<char>,
)
    requires
        stands_first(html, EXEC_OPEN@, start),
        stands_first(html, EXEC_CLOSE@, end),
        start + EXEC_OPEN@.len() <= end,
    ensures
        directive(html) is Some,
        ({
            let before = html.take(start);
            let after = html.skip(end + EXEC_CLOSE@.len());
            &&& html == before + EXEC_OPEN@ + command(html) + EXEC_CLOSE@ + after
            &&& vstd::utf8::decode_utf8(dynamic_page(html, run_result)) == HTTP_OK@ + before
                + run_result + after
            &&& dynamic_page(html, run_result) == vstd::utf8::encode_utf8(
                HTTP_OK@ + before + run_result + after,
            )
        }),
        command(html) == html.subrange(start + EXEC_OPEN@.len(), end),
{
    broadcast use vstd::utf8::encode_utf8_decode_utf8;

    lemma_first_is_found(html, EXEC_OPEN@, start);
    lemma_first_is_found(html, EXEC_CLOSE@, end);
    law_expansion_replaces_the_command(html, run_result);
    let before = html.take(start);
    let after = html.skip(end + EXEC_CLOSE@.len());
    assert(HTTP_OK@ + (before + run_result + after) =~= HTTP_OK@ + before + run_result + after);
}

/// A page is without a command exactly where one of the marks is missing, or the first
/// `EXEC_CLOSE` starts before the end of the first `EXEC_OPEN`.
pub proof fn law_pages_without_a_command(html: Seq<char>)
    ensures
        directive(html) is None <==> {
            ||| forall|i: int|
                0 <= i <= html.len() - EXEC_OPEN@.len() ==> #[trigger] html.subrange(
                    i,
                    i + EXEC_OPEN@.len(),
                ) != EXEC_OPEN@
            ||| forall|i: int|
                0 <= i <= html.len() - EXEC_CLOSE@.len() ==> #[trigger] html.subrange(
                    i,
                    i + EXEC_CLOSE@.len(),
                ) != EXEC_CLOSE@
            ||| exists|start: int, end: int|
                {
                    &&& #[trigger] stands_first(html, EXEC_OPEN@, start)
                    &&& #[trigger] stands_first(html, EXEC_CLOSE@, end)
                    &&& end < start + EXEC_OPEN@.len()
                }
        },
{
    text::lemma_find_from(html, EXEC_OPEN@, 0);
    text::lemma_find_from(html, EXEC_CLOSE@, 0);
    match (text::find_spec(html, EXEC_OPEN@), text::find_spec(html, EXEC_CLOSE@)) {
        (Some(start), Some(end)) => {
            assert(stands_first(html, EXEC_OPEN@, start));
            assert(stands_first(html, EXEC_CLOSE@, end));
            assert(html.subrange(start, start + EXEC_OPEN@.len()) == EXEC_OPEN@);
            assert(html.subrange(end, end + EXEC_CLOSE@.len()) == EXEC_CLOSE@);
            assert forall|s: int, e: int| #[trigger]
                stands_first(html, EXEC_OPEN@, s) && #[trigger] stands_first(
                    html,
                    EXEC_CLOSE@,
                    e,
                ) implies s == start && e == end by {
                lemma_first_is_found(html, EXEC_OPEN@, s);
                lemma_first_is_found(html, EXEC_CLOSE@, e);
            }
        },
        _ => {},
    }
}

proof fn lemma_first_is_found(text: Seq<char>, mark: Seq<char>, at: int)
    requires
        stands_first(text, mark, at),
    ensures
        text::find_spec(text, mark) == Some(at),
{
    text::lemma_find_from(text, mark, 0);
    match text::find_spec(text, mark) {
        Some(i) => {
            assert(text.subrange(i, i + mark.len()) == mark);
            assert(text.subrange(at, at + mark.len()) == mark);
        },
        None => {
            assert(text.subrange(at, at + mark.len()) == mark);
        },
    }
}

} // verus!
