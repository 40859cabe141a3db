//! The requests that the servers read and the response that they write.
use vstd::prelude::*;

verus! {

/// How many bytes of a request a server has room for.
pub const REQUEST_LEN: usize = 1024;

/// The text of the response to every request.
pub open spec fn response_text() -> Seq<char> {
    "HTTP/1.1 200 OK\r\nContent-Length: 12\nConnection: close\r\n\r\nHello world!"@
}

/// The response to every request.
pub open spec fn response_bytes() -> Seq<u8> {
    response_text().map_values(|c: char| c as u8)
}

/// The response to every request.
pub fn response() -> (response: &'static [u8])
    ensures
        response@ == response_bytes(),
        response@.len() == 69,
{
    let text = "HTTP/1.1 200 OK\r\nContent-Length: 12\nConnection: close\r\n\r\nHello world!";
    proof {
        law_response_is_ascii();
        vstd::string::is_ascii_spec_bytes(text);
    }
    let bytes = text.as_bytes();
    assert(bytes@ == response_bytes());
    bytes
}

/// Whether `bytes` end as a request does: with an empty line.
pub open spec fn ends_request(bytes: Seq<u8>) -> bool {
    bytes.len() >= 4 && bytes.skip(bytes.len() - 4) == seq![13u8, 10, 13, 10]
}

/// Whether the first `read` bytes of `request` end as a request does.
pub fn is_request_end(request: &[u8; 1024], read: usize) -> (end: bool)
    requires
        read <= REQUEST_LEN,
    ensures
        end == ends_request(request@.take(read as int)),
        end <==> read >= 4 && request@[read - 4] == 13 && request@[read - 3] == 10 && request@[read
            - 2] == 13 && request@[read - 1] == 10,
{
    if read < 4 {
        return false;
    }
    let end = request[read - 4] == 13 && request[read - 3] == 10 && request[read - 2] == 13
        && request[read - 1] == 10;
    proof {
        let tail = request@.take(read as int).skip(read - 4);
        assert(tail.len() == 4);
        assert(tail[0] == request@[read - 4] && tail[1] == request@[read - 3] && tail[2]
            == request@[read - 2] && tail[3] == request@[read - 1]);
        if end {
            assert(tail == seq![13u8, 10, 13, 10]);
        }
    }
    end
}

/// `request` with `chunk` in the place of the bytes from `offset` on.
pub open spec fn placed(request: Seq<u8>, offset: int, chunk: Seq<u8>) -> Seq<u8> {
    request.take(offset) + chunk + request.skip(offset + chunk.len())
}

/// Puts `chunk` into `request`, in the place of the bytes from `offset` on.
pub fn place(request: [u8; 1024], offset: usize, chunk: &Vec<u8>) -> (filled: [u8; 1024])
    requires
        offset + chunk@.len() <= REQUEST_LEN,
    ensures
        filled@ == placed(request@, offset as int, chunk@),
        filled@.subrange(offset as int, offset + chunk@.len()) == chunk@,
        forall|i: int|
            0 <= i < offset || offset + chunk@.len() <= i < REQUEST_LEN ==> #[trigger] filled@[i]
                == request@[i],
{
    let mut filled = request;
    let mut i: usize = 0;
    while i < chunk.len()
        invariant
            i <= chunk.len(),
            offset + chunk@.len() <= REQUEST_LEN,
            filled@ == placed(request@, offset as int, chunk@.take(i as int)),
        decreases chunk.len() - i,
    {
        filled[offset + i] = chunk[i];
        assert(filled@ == placed(request@, offset as int, chunk@.take(i + 1)));
        i = i + 1;
    }
    assert(chunk@.take(i as int) == chunk@);
    filled
}

/// The text that bytes stand for, with the replacement character for what is no UTF-8.
pub uninterp spec fn lossy_text(bytes: Seq<u8>) -> Seq<char>;

/// The text that `bytes` stand for, read by `String::from_utf8_lossy`.
///
/// Taken on trust: the text depends on the bytes alone, and bytes that are valid UTF-8
/// are read as what they encode. Which characters stand for other bytes is left open.
#[verifier::external_body]
fn from_utf8_lossy(bytes: &[u8]) -> (text: String)
    ensures
        text@ == lossy_text(bytes@),
        vstd::utf8::valid_utf8(bytes@) ==> text@ == vstd::utf8::decode_utf8(bytes@),
{
    String::from_utf8_lossy(bytes).into_owned()
}

/// What bytes are printed as: what they encode if they are valid UTF-8.
pub open spec fn text_of(bytes: Seq<u8>) -> Seq<char> {
    if vstd::utf8::valid_utf8(bytes) {
        vstd::utf8::decode_utf8(bytes)
    } else {
        lossy_text(bytes)
    }
}

/// The text of the request in the first `read` bytes of `request`.
pub fn request_text(request: &[u8; 1024], read: usize) -> (text: String)
    requires
        read <= REQUEST_LEN,
    ensures
        text@ == text_of(request@.take(read as int)),
        text@ == lossy_text(request@.take(read as int)),
{
    let bytes = vstd::slice::slice_subrange(request.as_slice(), 0, read);
    from_utf8_lossy(bytes)
}

/// A request ends with an empty line and nothing else does: whatever comes before the carriage
/// returns and line feeds, however long it is, with them it is at its end.
pub proof fn law_empty_line_ends_a_request(before: Seq<u8>)
    ensures
        ends_request(before + seq![13u8, 10, 13, 10]),
{
    let bytes = before + seq![13u8, 10, 13, 10];
    assert(bytes.skip(bytes.len() - 4) =~= seq![13u8, 10, 13, 10]);
}

/// Every request that is at its end is something followed by an empty line.
pub proof fn law_only_an_empty_line_ends_a_request(bytes: Seq<u8>) -> (before: Seq<u8>)
    requires
        ends_request(bytes),
    ensures
        bytes == before + seq![13u8, 10, 13, 10],
{
    let before = bytes.take(bytes.len() - 4);
    assert(bytes =~= before + bytes.skip(bytes.len() - 4));
    before
}

/// A piece lands where it was put, and the bytes around it stay what they were.
pub proof fn law_piece_lands_where_it_was_put(request: Seq<u8>, before: Seq<u8>, chunk: Seq<u8>)
    requires
        before.is_prefix_of(request),
        before.len() + chunk.len() <= request.len(),
    ensures
        ({
            let filled = placed(request, before.len() as int, chunk);
            &&& filled.len() == request.len()
            &&& (before + chunk).is_prefix_of(filled)
            &&& forall|i: int|
                before.len() + chunk.len() <= i < request.len() ==> #[trigger] filled[i]
                    == request[i]
        }),
{
}

/// A request that is text is printed as that text, whatever it is. One that is not is printed
/// as all of its bytes read lossily.
pub proof fn law_request_is_printed_as_sent(text: Seq<char>, bytes: Seq<u8>)
    ensures
        text_of(vstd::utf8::encode_utf8(text)) == text,
        vstd::utf8::valid_utf8(bytes) ==> vstd::utf8::encode_utf8(text_of(bytes)) == bytes,
        !vstd::utf8::valid_utf8(bytes) ==> text_of(bytes) == lossy_text(bytes),
{
    broadcast use {
        vstd::utf8::encode_utf8_valid_utf8,
        vstd::utf8::encode_utf8_decode_utf8,
        vstd::utf8::decode_utf8_encode_utf8,
    };

}

/// The response is a status line, the headers and an empty line, and then a greeting that is
/// as long as the headers say. Encoded, it is the bytes that are sent.
pub proof fn law_response_is_a_greeting()
    ensures
        response_text() == "HTTP/1.1 200 OK\r\n"@ + "Content-Length: 12\n"@
            + "Connection: close\r\n\r\n"@ + "Hello world!"@,
        "Hello world!"@.len() == 12,
        response_bytes().len() == response_text().len(),
        forall|i: int|
            0 <= i < response_text().len() ==> #[trigger] response_bytes()[i] as int
                == response_text()[i] as int,
{
    reveal_strlit("HTTP/1.1 200 OK\r\nContent-Length: 12\nConnection: close\r\n\r\nHello world!");
    reveal_strlit("HTTP/1.1 200 OK\r\n");
    reveal_strlit("Content-Length: 12\n");
    reveal_strlit("Connection: close\r\n\r\n");
    reveal_strlit("Hello world!");
    law_response_is_ascii();
    assert(response_text() =~= "HTTP/1.1 200 OK\r\n"@ + "Content-Length: 12\n"@
        + "Connection: close\r\n\r\n"@ + "Hello world!"@);
}

/// The response is plain ASCII, so that each character is one byte.
pub proof fn law_response_is_ascii()
    ensures
        vstd::utf8::is_ascii_chars(response_text()),
        response_bytes().len() == 69,
{
    reveal_strlit("HTTP/1.1 200 OK\r\nContent-Length: 12\nConnection: close\r\n\r\nHello world!");
}

} // verus!
