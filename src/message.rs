use vstd::prelude::*;
use vstd::utf8::{decode_utf8, encode_utf8, valid_utf8};

use crate::error::ScaffoldError;
use crate::trace::Response;

verus! {

#[verifier::external_type_specification]
#[verifier::external_body]
pub struct ExBase64DecodeError(base64::DecodeError);

#[verifier::external_type_specification]
#[verifier::external_body]
pub struct ExHttpParseError(httparse::Error);

/// The bytes that standard base64 decoding gives for `text`, or `None` where
/// `text` is not valid base64.
pub uninterp spec fn base64_decoded(text: Seq<u8>) -> Option<Seq<u8>>;

/// What reading an HTTP response head from the front of `message` gives, with
/// room for `max_headers` headers: `None` where the head is malformed,
/// `Some(None)` where the message ends before the head does, and
/// `Some(Some(n))` where the head takes the first `n` bytes.
pub uninterp spec fn response_head_len(message: Seq<u8>, max_headers: nat) -> Option<Option<nat>>;

/// Relies on base64::decode (standard alphabet, padded): the decoded bytes,
/// or an error where the text is not valid base64.
#[verifier::external_body]
fn decode_base64(text: &str) -> (r: Result<Vec<u8>, base64::DecodeError>)
    requires
        encode_utf8(text@).len() + 3 <= usize::MAX,
    ensures
        r is Err <==> base64_decoded(encode_utf8(text@)) is None,
        r matches Ok(bytes) ==> base64_decoded(encode_utf8(text@)) == Some(bytes@),
{
    base64::decode(text)
}

/// Relies on httparse::Response::parse: `Complete(n)` where the head ends after
/// `n` bytes of the buffer, `Partial` where the buffer ends first, an error
/// where the head is malformed or has more headers than there is room for.
#[verifier::external_body]
fn parse_response_head(message: &[u8], max_headers: usize) -> (r: Result<Option<usize>, httparse::Error>)
    ensures
        r is Err <==> response_head_len(message@, max_headers as nat) is None,
        r matches Ok(None) <==> response_head_len(message@, max_headers as nat) == Some(None::<nat>),
        r matches Ok(Some(n)) ==> response_head_len(message@, max_headers as nat) == Some(Some(n as nat))
            && n <= message@.len(),
{
    let mut headers = vec![httparse::EMPTY_HEADER; max_headers];
    let mut response = httparse::Response::new(&mut headers);
    match response.parse(message) {
        Ok(httparse::Status::Complete(n)) => Ok(Some(n)),
        Ok(httparse::Status::Partial) => Ok(None),
        Err(e) => Err(e),
    }
}

/// Relies on std::str::from_utf8: succeeds exactly on well-formed UTF-8, whose
/// characters it then holds.
#[verifier::external_body]
fn utf8_text(bytes: &[u8]) -> (r: Option<String>)
    ensures
        r is Some <==> valid_utf8(bytes@),
        r matches Some(s) ==> s@ == decode_utf8(bytes@),
{
    match std::str::from_utf8(bytes) {
        Ok(s) => Some(s.to_string()),
        Err(_) => None,
    }
}

/// Where the head of a captured HTTP message ends.
#[derive(Debug, PartialEq, Eq)]
pub enum MessageHead {
    /// The head is complete and takes this many bytes.
    Complete(usize),
    /// The message ends before the blank line that closes the head.
    Partial,
    /// The head is not a well-formed HTTP response head.
    Invalid,
}

/// How many line feeds `message` holds. The status line and every header
/// line end in one, so a head never has more headers than this.
pub open spec fn line_feed_count(message: Seq<u8>) -> nat {
    message.filter(|b: u8| b == 10).len()
}

/// The head of `message` as the response parser reads it, given room for as
/// many headers as the message has lines.
pub open spec fn message_head(message: Seq<u8>) -> MessageHead {
    match response_head_len(message, line_feed_count(message)) {
        None => MessageHead::Invalid,
        Some(None) => MessageHead::Partial,
        Some(Some(n)) => MessageHead::Complete(n as usize),
    }
}

/// The body that follows a head of the given extent: the remaining bytes, read
/// as UTF-8.
pub open spec fn body_after(message: Seq<u8>, head: MessageHead) -> Result<Seq<char>, ScaffoldError> {
    match head {
        MessageHead::Invalid => Err(ScaffoldError::InvalidHead),
        MessageHead::Partial => Err(ScaffoldError::PartialMessage),
        MessageHead::Complete(n) => if valid_utf8(message.skip(n as int)) {
            Ok(decode_utf8(message.skip(n as int)))
        } else {
            Err(ScaffoldError::InvalidUtf8)
        },
    }
}

/// The body of a captured response whose raw form is the base64 text `raw`.
/// A text too long for the decoder's length arithmetic counts as invalid.
pub open spec fn extracted_body(raw: Seq<u8>) -> Result<Seq<char>, ScaffoldError> {
    if raw.len() + 3 > usize::MAX {
        Err(ScaffoldError::InvalidBase64)
    } else {
        match base64_decoded(raw) {
            None => Err(ScaffoldError::InvalidBase64),
            Some(message) => body_after(message, message_head(message)),
        }
    }
}

/// The characters of a textual result.
pub open spec fn text_result(r: Result<String, ScaffoldError>) -> Result<Seq<char>, ScaffoldError> {
    match r {
        Ok(s) => Ok(s@),
        Err(e) => Err(e),
    }
}

/// Counts the line feeds of `message`.
pub fn count_line_feeds(message: &[u8]) -> (r: usize)
    ensures
        r == line_feed_count(message@),
{
    let mut n: usize = 0;
    let mut i: usize = 0;
    while i < message.len()
        invariant
            0 <= i <= message@.len(),
            n == line_feed_count(message@.take(i as int)),
            n <= i,
        decreases message@.len() - i,
    {
        proof {
            assert(message@.take(i + 1) =~= message@.take(i as int).push(message@[i as int]));
            message@.take(i as int).lemma_filter_push(message@[i as int], |b: u8| b == 10);
        }
        if message[i] == 10 {
            n = n + 1;
        }
        i = i + 1;
    }
    assert(message@.take(i as int) =~= message@);
    n
}

/// Reads the head of a decoded HTTP response message.
pub fn read_message_head(message: &[u8]) -> (r: MessageHead)
    ensures
        r == message_head(message@),
        r matches MessageHead::Complete(n) ==> n <= message@.len(),
{
    let room = count_line_feeds(message);
    match parse_response_head(message, room) {
        Ok(Some(n)) => MessageHead::Complete(n),
        Ok(None) => MessageHead::Partial,
        Err(_) => MessageHead::Invalid,
    }
}

/// The body of `message`, given where its head ends.
pub fn body_after_head(message: &[u8], head: MessageHead) -> (r: Result<String, ScaffoldError>)
    requires
        head matches MessageHead::Complete(n) ==> n <= message@.len(),
    ensures
        text_result(r) == body_after(message@, head),
{
    match head {
        MessageHead::Invalid => Err(ScaffoldError::InvalidHead),
        MessageHead::Partial => Err(ScaffoldError::PartialMessage),
        MessageHead::Complete(n) => {
            let (_, body) = message.split_at(n);
            assert(body@ =~= message@.skip(n as int));
            match utf8_text(body) {
                Some(text) => Ok(text),
                None => Err(ScaffoldError::InvalidUtf8),
            }
        },
    }
}

impl Response {
    /// The body of the captured response: `raw` decoded from base64, its HTTP
    /// head skipped, the rest read as UTF-8.
    pub fn get_body(&self) -> (r: Result<String, ScaffoldError>)
        ensures
            text_result(r) == extracted_body(encode_utf8(self.raw@)),
            forall|message: Seq<u8>, n: usize|
                encode_utf8(self.raw@).len() + 3 <= usize::MAX && base64_decoded(encode_utf8(self.raw@)) == Some(message) && message_head(message)
                    == MessageHead::Complete(n) && valid_utf8(message.skip(n as int))
                    ==> (r matches Ok(body) && body@ == decode_utf8(message.skip(n as int))),
            forall|message: Seq<u8>|
                encode_utf8(self.raw@).len() + 3 <= usize::MAX && base64_decoded(encode_utf8(self.raw@))
                    == Some(message) && message_head(message) == MessageHead::Partial
                    ==> r == Err::<String, ScaffoldError>(ScaffoldError::PartialMessage),
    {
        let raw = self.raw.as_str();
        if raw.as_bytes().len() > usize::MAX - 3 {
            return Err(ScaffoldError::InvalidBase64);
        }
        match decode_base64(raw) {
            Err(_) => Err(ScaffoldError::InvalidBase64),
            Ok(message) => {
                let head = read_message_head(message.as_slice());
                body_after_head(message.as_slice(), head)
            },
        }
    }
}

} // verus!
