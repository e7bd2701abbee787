//! What a client asks for.

use vstd::prelude::*;

use crate::outside::text_of;
use crate::text;
use crate::text::{contains_char, split};

verus! {

/// How many bytes of a request are read. What follows them is never looked at.
pub const REQUEST_LIMIT: usize = 800;

/// Why the task that works on a connection, or the one that hands out requests, ends without
/// finishing its work.
#[derive(Clone, Copy, Debug, PartialEq, Eq, Structural)]
pub enum Failure {
    /// The request is not text.
    NotUtf8,
    /// The requested path holds a NUL character.
    NulInPath,
    /// The peer name of a connection has no dot, so it is no dotted address. Its stream stays kept,
    /// in place of the one that was kept for the same name before.
    NoAddress { replaced: Option<u64> },
    /// No stream is kept for a request that waits.
    NoStream,
    /// The size of a file is more than can be counted.
    TooLarge,
}

/// The path that a request names, as it stands in the request, with a dot before it.
///
/// A request is cut at its spaces. Its second piece is the path, provided that a third follows:
/// a request of fewer pieces names no path.
pub open spec fn requested_path_spec(buffer: Seq<u8>) -> Result<Option<Seq<char>>, Failure> {
    if !vstd::utf8::valid_utf8(buffer) {
        Err(Failure::NotUtf8)
    } else {
        let pieces = text::split_spec(vstd::utf8::decode_utf8(buffer), ' ');
        if pieces.len() <= 2 {
            Ok(None)
        } else if pieces[1].contains('\0') {
            Err(Failure::NulInPath)
        } else {
            Ok(Some("."@ + pieces[1]))
        }
    }
}

/// Reads the path that a request names.
pub fn requested_path(buffer: &[u8]) -> (path: Result<Option<String>, Failure>)
    ensures
        match path {
            Ok(Some(p)) => requested_path_spec(buffer@) == Ok::<_, Failure>(Some(p@)),
            Ok(None) => requested_path_spec(buffer@) == Ok::<Option<Seq<char>>, Failure>(None),
            Err(e) => requested_path_spec(buffer@) == Err::<Option<Seq<char>>, _>(e),
        },
{
    let request = match text_of(buffer) {
        Some(request) => request,
        None => return Err(Failure::NotUtf8),
    };
    let pieces = split(request, ' ');
    assert(text::texts(pieces@).len() == pieces@.len());
    if pieces.len() <= 2 {
        return Ok(None);
    }
    assert(text::texts(pieces@)[1] == pieces@[1]@);
    if contains_char(pieces[1].as_str(), '\0') {
        return Err(Failure::NulInPath);
    }
    let mut path: String = ".".to_owned();
    path.append(pieces[1].as_str());
    Ok(Some(path))
}

/// What stands between the first and the second space of a request is the path that it names, all
/// of it and unchanged, with a dot before it; only a NUL character makes it no path.
pub proof fn law_the_whole_target_is_requested(
    buffer: Seq<u8>,
    method: Seq<char>,
    target: Seq<char>,
    rest: Seq<char>,
)
    requires
        vstd::utf8::valid_utf8(buffer),
        vstd::utf8::decode_utf8(buffer) == method + seq![' '] + target + seq![' '] + rest,
        !method.contains(' '),
        !target.contains(' '),
    ensures
        !target.contains('\0') ==> requested_path_spec(buffer) == Ok::<
            Option<Seq<char>>,
            Failure,
        >(Some(seq!['.'] + target)),
        target.contains('\0') ==> requested_path_spec(buffer) == Err::<Option<Seq<char>>, Failure>(
            Failure::NulInPath,
        ),
{
    let tail = target.push(' ') + rest;
    text::law_first_piece(method, ' ', tail);
    text::law_first_piece(target, ' ', rest);
    text::lemma_first_piece_of(rest, ' ');
    let whole = vstd::utf8::decode_utf8(buffer);
    assert(whole =~= method.push(' ') + tail);
    let pieces = text::split_spec(whole, ' ');
    assert(pieces =~= seq![method, target] + text::split_spec(rest, ' '));
    assert(pieces[1] == target);
    reveal_strlit(".");
    assert("."@ =~= seq!['.']);
}

/// A request with fewer than two spaces names no path.
pub proof fn law_a_request_needs_two_spaces(buffer: Seq<u8>)
    requires
        vstd::utf8::valid_utf8(buffer),
        forall|i: int, j: int|
            0 <= i < j < vstd::utf8::decode_utf8(buffer).len() ==> !(#[trigger] vstd::utf8::decode_utf8(
                buffer,
            )[i] == ' ' && #[trigger] vstd::utf8::decode_utf8(buffer)[j] == ' '),
    ensures
        requested_path_spec(buffer) == Ok::<Option<Seq<char>>, Failure>(None),
{
    let whole = vstd::utf8::decode_utf8(buffer);
    text::lemma_first_piece_of(whole, ' ');
    if whole.contains(' ') {
        let first = text::split_spec(whole, ' ')[0];
        let n = first.len() as int;
        let rest = whole.skip(n + 1);
        assert(whole[n] == ' ');
        if rest.contains(' ') {
            let k = rest.index_of(' ');
            assert(rest[k] == ' ');
            assert(whole[n + 1 + k] == ' ');
        }
        text::lemma_split_single(rest, ' ');
        assert(text::split_spec(whole, ' ').len() == 2);
    } else {
        text::lemma_split_single(whole, ' ');
    }
}

/// Bytes that are no text are no request.
pub proof fn law_a_request_is_text(buffer: Seq<u8>)
    requires
        !vstd::utf8::valid_utf8(buffer),
    ensures
        requested_path_spec(buffer) == Err::<Option<Seq<char>>, Failure>(Failure::NotUtf8),
{
}

} // verus!
