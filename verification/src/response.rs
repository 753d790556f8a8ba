//! Responses: the lazily loaded one, whose body is read step by step, and
//! the loaded one, which holds its whole body.
use crate::error::RequestError;
use crate::framing::{
    budget_after, fields_inserted, lines_size, framing_from_headers, framing_of, trailer_line, HttpStreamState, TrailerLineStep,
};
use crate::headers::Headers;
use crate::number::{decimal, decimal_string, lemma_decimal_round_trip, lemma_decimal_trimmed};
use crate::parse::{
    chunk_size_meaning, content_length_meaning, header_meaning, parse_chunk_size,
    parse_status_line, status_line_meaning,
};
use crate::text::{str_from_utf8, utf8_error_of, utf8_len};
use vstd::prelude::*;
use vstd::std_specs::cmp::PartialEqSpecImpl;
use vstd::string::StringSliceAdditionalSpecFns;
use vstd::utf8::{decode_utf8, encode_utf8_decode_utf8, valid_utf8};

verus! {

/// The most that the expected length of a response body (the bytes still
/// to come, the piece at hand included) is said to be, so that a client
/// reserving memory for it does not reserve too much.
pub const MAX_CONTENT_LENGTH: usize = 16384;

/// The smaller of two lengths.
pub open spec fn min_len(a: nat, b: nat) -> nat {
    if a <= b {
        a
    } else {
        b
    }
}

/// An HTTP response whose body is loaded lazily, step by step, as the
/// connection delivers it.
///
/// The expected length given with each piece of the body is the number of
/// bytes still to come, that piece included (for a chunked body, of the
/// current chunk), capped at 16 KiB to keep a server from making the client
/// reserve too much memory.
pub struct ResponseLazy {
    /// The status code of the response, eg. 404.
    pub status_code: i32,
    /// The reason phrase of the response, eg. "Not Found".
    pub reason_phrase: String,
    /// The headers of the response. The header field names (the keys) are
    /// all lowercase.
    pub headers: Headers,
    /// The URL of the resource returned in this response.
    pub url: String,
    state: HttpStreamState,
    max_trailing_headers_size: Option<usize>,
}

/// What a chunk size line did.
#[derive(PartialEq, Eq, Structural, Clone, Copy, Debug)]
pub enum ChunkSizeStep {
    /// The size was zero: the trailer section follows, then the body is over.
    LastChunk,
    /// A chunk of data of the given size follows.
    Data,
    /// Adding the size to the bytes counted so far would overflow a `usize`;
    /// nothing was changed.
    CountOverflow,
}

/// What to do next to read the body.
#[derive(PartialEq, Eq, Structural, Clone, Copy, Debug)]
pub enum BodyAction {
    /// The body is over.
    Done,
    /// Read the next piece, whatever comes, until the connection closes.
    ReadUntilClosed,
    /// Read the next piece of a body whose length was given (`take_content`).
    ReadContent,
    /// Read the size line of the next chunk (`take_chunk_size`).
    ReadChunkSize,
    /// Read from the current chunk (`take_chunk_data`).
    ReadChunkData,
    /// Read the empty line that closes the data of a chunk (`take_chunk_end`).
    ReadChunkEnd,
    /// Read a line of the trailer section (`take_trailer_line`).
    ReadTrailer,
}

/// The next thing to do for a body in state `st`.
pub open spec fn action_for(st: HttpStreamState) -> BodyAction {
    match st {
        HttpStreamState::EndOnClose => BodyAction::ReadUntilClosed,
        HttpStreamState::ContentLength(left) => if left > 0 {
            BodyAction::ReadContent
        } else {
            BodyAction::Done
        },
        HttpStreamState::Chunked(more, left, _, line_due) => if left > 0 {
            BodyAction::ReadChunkData
        } else if line_due {
            if more {
                BodyAction::ReadChunkEnd
            } else {
                BodyAction::ReadTrailer
            }
        } else if more {
            BodyAction::ReadChunkSize
        } else {
            BodyAction::Done
        },
    }
}

/// Of a read of `available` bytes, the piece that belongs to the body and
/// the expected length to report with it: for a body whose length was
/// given, as much of the read as is still to come, with what is still to
/// come (this piece included) capped at 16 KiB; for a chunked body, the
/// same within the current chunk. `None` when no body bytes are due.
pub open spec fn body_piece(st: HttpStreamState, available: nat) -> Option<(nat, nat)> {
    match st {
        HttpStreamState::ContentLength(left) => if left > 0 {
            Some((min_len(available, left as nat), min_len(left as nat, MAX_CONTENT_LENGTH as nat)))
        } else {
            None
        },
        HttpStreamState::Chunked(_, left, _, _) => if left > 0 {
            Some((min_len(available, left as nat), min_len(left as nat, MAX_CONTENT_LENGTH as nat)))
        } else {
            None
        },
        HttpStreamState::EndOnClose => None,
    }
}

/// The state after the body piece of a read of `available` bytes was taken.
pub open spec fn after_piece(st: HttpStreamState, available: nat) -> HttpStreamState {
    match st {
        HttpStreamState::ContentLength(left) => if left > 0 {
            HttpStreamState::ContentLength((left - min_len(available, left as nat)) as usize)
        } else {
            st
        },
        HttpStreamState::Chunked(more, left, count, _) => if left > 0 {
            HttpStreamState::Chunked(
                more,
                (left - min_len(available, left as nat)) as usize,
                count,
                left - min_len(available, left as nat) == 0,
            )
        } else {
            st
        },
        HttpStreamState::EndOnClose => st,
    }
}

/// The state of a chunked body once its trailer section is over: no more
/// chunks and no line due.
pub open spec fn finished(st: HttpStreamState) -> HttpStreamState {
    match st {
        HttpStreamState::Chunked(_, left, count, _) => HttpStreamState::Chunked(false, left, count, false),
        _ => st,
    }
}

/// The header fields once a chunked body is over: `content-length` gives
/// the count of body bytes, and `transfer-encoding` is gone.
pub open spec fn finished_headers(st: HttpStreamState, h: Map<Seq<char>, Seq<char>>) -> Map<
    Seq<char>,
    Seq<char>,
> {
    match st {
        HttpStreamState::Chunked(_, _, count, _) => h.insert("content-length"@, decimal(count as nat)).remove(
            "transfer-encoding"@,
        ),
        _ => h,
    }
}

/// The state after a chunk size line: `None` when the line gives no size;
/// a zero size ends the chunks and makes the trailer section due; another
/// size becomes the current chunk and is counted, unless the count would
/// overflow (then nothing changes).
pub open spec fn size_line_step(st: HttpStreamState, line: Seq<char>) -> Option<HttpStreamState> {
    match chunk_size_meaning(line) {
        None => None,
        Some(size) => if size == 0 {
            Some(
                match st {
                    HttpStreamState::Chunked(_, _, count, _) => HttpStreamState::Chunked(false, 0, count, true),
                    _ => st,
                },
            )
        } else {
            match st {
                HttpStreamState::Chunked(more, _, count, _) => if count + size <= usize::MAX {
                    Some(HttpStreamState::Chunked(more, size as usize, (count + size) as usize, false))
                } else {
                    Some(st)
                },
                _ => Some(st),
            }
        },
    }
}

/// The state after the line that closes a chunk's data: `None` unless the
/// line is empty; the empty line clears the line that was due.
pub open spec fn end_line_step(st: HttpStreamState, line: Seq<char>) -> Option<HttpStreamState> {
    if line.len() == 0 {
        Some(
            match st {
                HttpStreamState::Chunked(more, left, count, _) => HttpStreamState::Chunked(
                    more,
                    left,
                    count,
                    false,
                ),
                _ => st,
            },
        )
    } else {
        None
    }
}

impl ResponseLazy {
    /// What to do next to read the body.
    pub fn next_action(&self) -> (r: BodyAction)
        ensures
            r == action_for(self.framing()),
    {
        match self.state {
            HttpStreamState::EndOnClose => BodyAction::ReadUntilClosed,
            HttpStreamState::ContentLength(left) => if left > 0 {
                BodyAction::ReadContent
            } else {
                BodyAction::Done
            },
            HttpStreamState::Chunked(more, left, _, line_due) => if left > 0 {
                BodyAction::ReadChunkData
            } else if line_due {
                if more {
                    BodyAction::ReadChunkEnd
                } else {
                    BodyAction::ReadTrailer
                }
            } else if more {
                BodyAction::ReadChunkSize
            } else {
                BodyAction::Done
            },
        }
    }

    /// The status code.
    pub closed spec fn status_of(&self) -> i32 {
        self.status_code
    }

    /// The reason phrase.
    pub closed spec fn reason_of(&self) -> Seq<char> {
        self.reason_phrase@
    }

    /// The header fields.
    pub closed spec fn headers_of(&self) -> Headers {
        self.headers
    }

    /// The URL.
    pub closed spec fn url_of(&self) -> Seq<char> {
        self.url@
    }

    /// How the end of the body is found, and how far reading has come.
    pub closed spec fn framing(&self) -> HttpStreamState {
        self.state
    }

    /// The size limit for the trailer section.
    pub closed spec fn trailer_limit(&self) -> Option<usize> {
        self.max_trailing_headers_size
    }

    /// The status code.
    pub fn status(&self) -> (r: i32)
        ensures
            r == self.status_of(),
    {
        self.status_code
    }

    /// The reason phrase.
    pub fn reason(&self) -> (r: &String)
        ensures
            r@ == self.reason_of(),
    {
        &self.reason_phrase
    }

    /// The header fields.
    pub fn header_fields(&self) -> (r: &Headers)
        ensures
            *r == self.headers_of(),
    {
        &self.headers
    }

    /// The URL.
    pub fn url_str(&self) -> (r: &String)
        ensures
            r@ == self.url_of(),
    {
        &self.url
    }

    /// Makes the response from its status line and header fields: the status
    /// code and reason phrase come from the status line, the framing from
    /// the fields, and what is left of the header size limit becomes the
    /// limit for the trailer section. A `content-length` field that holds no
    /// length is refused with `MalformedContentLength`.
    pub fn from_head(status_line: &str, headers: Headers, max_trailing_headers_size: Option<usize>) -> (r:
        Result<ResponseLazy, RequestError>)
        ensures
            match framing_of(headers.pairs()) {
                None => r matches Err(e) && e is MalformedContentLength,
                Some(st) => r matches Ok(lazy) && lazy.status_of() as int == status_line_meaning(
                    status_line@,
                ).0 && lazy.reason_of() == status_line_meaning(status_line@).1 && lazy.headers_of()
                    == headers && lazy.url_of() == Seq::<char>::empty() && lazy.framing() == st
                    && lazy.trailer_limit() == max_trailing_headers_size,
            },
    {
        let (status_code, reason_phrase) = parse_status_line(status_line);
        let state = framing_from_headers(&headers)?;
        Ok(
            ResponseLazy {
                status_code,
                reason_phrase,
                headers,
                url: String::new(),
                state,
                max_trailing_headers_size,
            },
        )
    }

    /// How the end of the body is found, and how far reading has come.
    pub fn state(&self) -> (r: HttpStreamState)
        ensures
            r == self.framing(),
    {
        self.state
    }

    /// The size limit for the trailer section.
    pub fn trailer_limit_exec(&self) -> (r: Option<usize>)
        ensures
            r == self.trailer_limit(),
    {
        self.max_trailing_headers_size
    }

    /// Takes the body's part of a read of `available` bytes from a body
    /// whose length was given: the first `r.0` bytes of the read (as many as
    /// are still to come) belong to the body, the rest does not; `r.1` is
    /// the expected length to report with them, what was still to come
    /// (this piece included) capped at 16 KiB. `None`, with nothing changed,
    /// when no body bytes are due. Only the framing changes.
    pub fn take_content(&mut self, available: usize) -> (r: Option<(usize, usize)>)
        ensures
            final(self).status_of() == old(self).status_of(),
            final(self).reason_of() == old(self).reason_of(),
            final(self).headers_of() == old(self).headers_of(),
            final(self).url_of() == old(self).url_of(),
            final(self).trailer_limit() == old(self).trailer_limit(),
            old(self).framing() is ContentLength ==> match body_piece(old(self).framing(), available as nat) {
                Some((take, expected)) => r == Some((take as usize, expected as usize))
                    && final(self).framing() == after_piece(old(self).framing(), available as nat),
                None => r is None && final(self).framing() == old(self).framing(),
            },
            !(old(self).framing() is ContentLength) ==> r is None && final(self).framing() == old(
                self,
            ).framing(),
    {
        match self.state {
            HttpStreamState::ContentLength(left) => {
                if left == 0 {
                    return None;
                }
                let take = if available <= left {
                    available
                } else {
                    left
                };
                let expected = if left <= MAX_CONTENT_LENGTH {
                    left
                } else {
                    MAX_CONTENT_LENGTH
                };
                self.state = HttpStreamState::ContentLength(left - take);
                Some((take, expected))
            },
            _ => None,
        }
    }

    /// Takes the chunk's part of a read of `available` bytes from the
    /// current chunk of a chunked body: the first `r.0` bytes of the read
    /// (as many as are left of the chunk) belong to the body, the rest does
    /// not; `r.1` is the expected length to report with them, what was left
    /// of the chunk (this piece included) capped at 16 KiB. When the chunk
    /// is used up, the line that closes its data is due. `None`, with
    /// nothing changed, when nothing is left of the current chunk. Only the
    /// framing changes.
    pub fn take_chunk_data(&mut self, available: usize) -> (r: Option<(usize, usize)>)
        ensures
            final(self).status_of() == old(self).status_of(),
            final(self).reason_of() == old(self).reason_of(),
            final(self).headers_of() == old(self).headers_of(),
            final(self).url_of() == old(self).url_of(),
            final(self).trailer_limit() == old(self).trailer_limit(),
            old(self).framing() is Chunked ==> match body_piece(old(self).framing(), available as nat) {
                Some((take, expected)) => r == Some((take as usize, expected as usize))
                    && final(self).framing() == after_piece(old(self).framing(), available as nat),
                None => r is None && final(self).framing() == old(self).framing(),
            },
            !(old(self).framing() is Chunked) ==> r is None && final(self).framing() == old(
                self,
            ).framing(),
    {
        match self.state {
            HttpStreamState::Chunked(more, left, count, _) => {
                if left == 0 {
                    return None;
                }
                let take = if available <= left {
                    available
                } else {
                    left
                };
                let expected = if left <= MAX_CONTENT_LENGTH {
                    left
                } else {
                    MAX_CONTENT_LENGTH
                };
                self.state = HttpStreamState::Chunked(more, left - take, count, left - take == 0);
                Some((take, expected))
            },
            _ => None,
        }
    }

    /// Takes the line that closes the data of a chunk: it must be empty,
    /// else it is refused with `MalformedChunkLength` and nothing changes.
    /// The empty line clears the line that was due. Only the framing changes.
    pub fn take_chunk_end(&mut self, line: &str) -> (r: Result<(), RequestError>)
        ensures
            final(self).status_of() == old(self).status_of(),
            final(self).reason_of() == old(self).reason_of(),
            final(self).headers_of() == old(self).headers_of(),
            final(self).url_of() == old(self).url_of(),
            final(self).trailer_limit() == old(self).trailer_limit(),
            r is Ok <==> line@.len() == 0,
            r is Ok ==> Some(final(self).framing()) == end_line_step(old(self).framing(), line@),
            r matches Err(e) ==> e is MalformedChunkLength && final(self).framing() == old(
                self,
            ).framing(),
            r is Ok ==> final(self).framing() == match old(self).framing() {
                HttpStreamState::Chunked(more, left, count, _) => HttpStreamState::Chunked(
                    more,
                    left,
                    count,
                    false,
                ),
                st => st,
            },
    {
        if !line.is_empty() {
            return Err(RequestError::MalformedChunkLength);
        }
        match self.state {
            HttpStreamState::Chunked(more, left, count, _) => {
                self.state = HttpStreamState::Chunked(more, left, count, false);
            },
            _ => {},
        }
        Ok(())
    }

    /// Takes the size line of the next chunk. A line that gives no size is
    /// refused with `MalformedChunkLength`; a zero size announces the last
    /// chunk, after which no chunk is expected and the trailer section is
    /// due; another size becomes the current chunk and is added to the count
    /// of body bytes. Only the framing changes.
    pub fn take_chunk_size(&mut self, line: &str) -> (r: Result<ChunkSizeStep, RequestError>)
        ensures
            r is Ok <==> size_line_step(old(self).framing(), line@) is Some,
            r is Ok ==> Some(final(self).framing()) == size_line_step(old(self).framing(), line@),
            final(self).status_of() == old(self).status_of(),
            final(self).reason_of() == old(self).reason_of(),
            final(self).headers_of() == old(self).headers_of(),
            final(self).url_of() == old(self).url_of(),
            final(self).trailer_limit() == old(self).trailer_limit(),
            match chunk_size_meaning(line@) {
                None => r matches Err(e) && e is MalformedChunkLength && final(self).framing()
                    == old(self).framing(),
                Some(size) => if size == 0 {
                    r matches Ok(ChunkSizeStep::LastChunk) && final(self).framing() == match old(
                        self,
                    ).framing() {
                        HttpStreamState::Chunked(_, _, count, _) => HttpStreamState::Chunked(
                            false,
                            0,
                            count,
                            true,
                        ),
                        st => st,
                    }
                } else {
                    match old(self).framing() {
                        HttpStreamState::Chunked(more, _, count, _) => if count + size <= usize::MAX {
                            r matches Ok(ChunkSizeStep::Data) && final(self).framing()
                                == HttpStreamState::Chunked(
                                more,
                                size as usize,
                                (count + size) as usize,
                                false,
                            )
                        } else {
                            r matches Ok(ChunkSizeStep::CountOverflow) && final(self).framing()
                                == old(self).framing()
                        },
                        _ => r matches Ok(ChunkSizeStep::CountOverflow) && final(self).framing()
                            == old(self).framing(),
                    }
                },
            },
    {
        let size = match parse_chunk_size(line) {
            Some(size) => size,
            None => return Err(RequestError::MalformedChunkLength),
        };
        if size == 0 {
            match self.state {
                HttpStreamState::Chunked(_, _, count, _) => {
                    self.state = HttpStreamState::Chunked(false, 0, count, true);
                },
                _ => {},
            }
            return Ok(ChunkSizeStep::LastChunk);
        }
        match self.state {
            HttpStreamState::Chunked(more, _, count, _) => {
                if count > usize::MAX - size {
                    Ok(ChunkSizeStep::CountOverflow)
                } else {
                    self.state = HttpStreamState::Chunked(more, size, count + size, false);
                    Ok(ChunkSizeStep::Data)
                }
            },
            _ => Ok(ChunkSizeStep::CountOverflow),
        }
    }

    /// Takes one line of the trailer section (see `trailer_line`), with the
    /// trailer size limit as its budget. A field is set; a line that is no
    /// field ends the section, and with it the chunked body
    /// (`finish_chunked`).
    pub fn take_trailer_line(&mut self, line: String) -> (r: TrailerLineStep)
        ensures
            final(self).status_of() == old(self).status_of(),
            final(self).reason_of() == old(self).reason_of(),
            final(self).url_of() == old(self).url_of(),
            match budget_after(old(self).trailer_limit(), utf8_len(line@)) {
                None => r == TrailerLineStep::BudgetOverflow && final(self).headers_of()@ == old(
                    self,
                ).headers_of()@ && final(self).trailer_limit() == old(self).trailer_limit()
                    && final(self).framing() == old(self).framing(),
                Some(left) => final(self).trailer_limit() == left && match header_meaning(line@) {
                    Some((name, value)) => r == TrailerLineStep::More && final(self).headers_of()@
                        == old(self).headers_of()@.insert(name, value) && final(self).framing()
                        == old(self).framing(),
                    None => r == TrailerLineStep::Done && final(self).framing() == finished(
                        old(self).framing(),
                    ) && final(self).headers_of()@ == finished_headers(
                        old(self).framing(),
                        old(self).headers_of()@,
                    ),
                },
            },
    {
        let mut headers = Headers::new();
        std::mem::swap(&mut headers, &mut self.headers);
        let mut budget = self.max_trailing_headers_size;
        let r = trailer_line(&mut headers, &mut budget, line);
        self.headers = headers;
        self.max_trailing_headers_size = budget;
        if r == TrailerLineStep::Done {
            self.finish_chunked();
        }
        r
    }

    /// Ends a chunked body after its trailer section: no more chunks are
    /// expected and no line is due, `content-length` is set to the count of
    /// body bytes, and `transfer-encoding` is removed.
    pub fn finish_chunked(&mut self)
        ensures
            final(self).status_of() == old(self).status_of(),
            final(self).reason_of() == old(self).reason_of(),
            final(self).url_of() == old(self).url_of(),
            final(self).trailer_limit() == old(self).trailer_limit(),
            final(self).framing() == finished(old(self).framing()),
            final(self).headers_of()@ == finished_headers(old(self).framing(), old(self).headers_of()@),
            !(old(self).framing() is Chunked) ==> final(self).headers_of() == old(self).headers_of(),
    {
        match self.state {
            HttpStreamState::Chunked(_, left, count, _) => {
                self.state = HttpStreamState::Chunked(false, left, count, false);
                let mut headers = Headers::new();
                std::mem::swap(&mut headers, &mut self.headers);
                headers.insert("content-length".to_owned(), decimal_string(count as u64));
                headers.remove(&"transfer-encoding".to_owned());
                self.headers = headers;
            },
            _ => {},
        }
    }
}

/// What `serde_json::from_str::<serde_json::Value>` gives for the text: the
/// value, or the error serde_json reports. Both depend on the text alone.
pub uninterp spec fn json_parse_of(text: Seq<char>) -> Result<serde_json::Value, serde_json::Error>;

/// `serde_json::from_str` from serde_json, into its dynamically typed
/// `Value`: parses JSON text. Its result, a function of the text alone, is
/// named, not written out.
#[verifier::external_body]
fn parse_json_value(text: &str) -> (r: Result<serde_json::Value, serde_json::Error>)
    ensures
        r == json_parse_of(text@),
{
    serde_json::from_str(text)
}

/// What `json` makes of serde_json's result: the value, or its error as
/// `SerdeJsonError`.
pub open spec fn json_outcome_of(parsed: Result<serde_json::Value, serde_json::Error>) -> Result<
    serde_json::Value,
    RequestError,
> {
    match parsed {
        Ok(v) => Ok(v),
        Err(e) => Err(RequestError::SerdeJsonError(e)),
    }
}

/// Turns serde_json's result into the library's: the value, or its error
/// as `SerdeJsonError`.
pub fn json_outcome(parsed: Result<serde_json::Value, serde_json::Error>) -> (r: Result<
    serde_json::Value,
    RequestError,
>)
    ensures
        r == json_outcome_of(parsed),
{
    match parsed {
        Ok(value) => Ok(value),
        Err(err) => Err(RequestError::SerdeJsonError(err)),
    }
}

/// Whether a response carries a body: not for `HEAD` requests, nor for the
/// statuses 204 (No Content) and 304 (Not Modified).
pub open spec fn body_expected(status_code: i32, is_head: bool) -> bool {
    !is_head && status_code != 204 && status_code != 304
}

/// Whether the body of a response is to be read.
pub fn expects_body(status_code: i32, is_head: bool) -> (r: bool)
    ensures
        r == body_expected(status_code, is_head),
{
    !is_head && status_code != 204 && status_code != 304
}

/// An HTTP response with its whole body.
#[derive(Debug, Eq)]
pub struct Response {
    /// The status code of the response, eg. 404.
    pub status_code: i32,
    /// The reason phrase of the response, eg. "Not Found".
    pub reason_phrase: String,
    /// The headers of the response. The header field names (the keys) are
    /// all lowercase.
    pub headers: Headers,
    /// The URL of the resource returned in this response. May differ from
    /// the request URL if it was redirected.
    pub url: String,
    body: Vec<u8>,
}

impl Response {
    /// The status code.
    pub closed spec fn status_of(&self) -> i32 {
        self.status_code
    }

    /// The reason phrase.
    pub closed spec fn reason_of(&self) -> Seq<char> {
        self.reason_phrase@
    }

    /// The header fields.
    pub closed spec fn headers_of(&self) -> Headers {
        self.headers
    }

    /// The URL.
    pub closed spec fn url_of(&self) -> Seq<char> {
        self.url@
    }

    /// The bytes of the body.
    pub closed spec fn body(&self) -> Seq<u8> {
        self.body@
    }

    /// The status code.
    pub fn status(&self) -> (r: i32)
        ensures
            r == self.status_of(),
    {
        self.status_code
    }

    /// The reason phrase.
    pub fn reason(&self) -> (r: &String)
        ensures
            r@ == self.reason_of(),
    {
        &self.reason_phrase
    }

    /// The header fields.
    pub fn header_fields(&self) -> (r: &Headers)
        ensures
            *r == self.headers_of(),
    {
        &self.headers
    }

    /// The URL.
    pub fn url_str(&self) -> (r: &String)
        ensures
            r@ == self.url_of(),
    {
        &self.url
    }

    /// Makes the response from its lazily loaded form and the bytes read of
    /// its body; a response that carries no body (see `expects_body`) gets
    /// an empty one.
    pub fn create(parent: ResponseLazy, is_head: bool, body: Vec<u8>) -> (r: Response)
        ensures
            r.status_of() == parent.status_of(),
            r.reason_of() == parent.reason_of(),
            r.headers_of() == parent.headers_of(),
            r.url_of() == parent.url_of(),
            r.body() == if body_expected(parent.status_of(), is_head) {
                body@
            } else {
                Seq::<u8>::empty()
            },
    {
        let body = if expects_body(parent.status_code, is_head) {
            body
        } else {
            Vec::new()
        };
        let ResponseLazy { status_code, reason_phrase, headers, url, .. } = parent;
        Response { status_code, reason_phrase, headers, url, body }
    }

    /// Returns the body as an `&str`.
    ///
    /// # Errors
    ///
    /// Returns `InvalidUtf8InBody` if the body is not UTF-8, with a
    /// description as to why the bytes are not UTF-8.
    pub fn as_str(&self) -> (r: Result<&str, RequestError>)
        ensures
            r is Ok <==> valid_utf8(self.body()),
            r matches Ok(s) ==> s.spec_bytes() == self.body(),
            r matches Err(e) ==> e == RequestError::InvalidUtf8InBody(utf8_error_of(self.body())),
    {
        match str_from_utf8(self.body.as_slice()) {
            Ok(s) => Ok(s),
            Err(err) => Err(RequestError::InvalidUtf8InBody(err)),
        }
    }

    /// Converts a JSON body to a dynamically typed JSON value using Serde.
    ///
    /// # Errors
    ///
    /// Returns `InvalidUtf8InBody` if the body is not UTF-8, or
    /// `SerdeJsonError` if Serde runs into a problem.
    pub fn json(&self) -> (r: Result<serde_json::Value, RequestError>)
        ensures
            !valid_utf8(self.body()) ==> r == Err::<serde_json::Value, RequestError>(
                RequestError::InvalidUtf8InBody(utf8_error_of(self.body())),
            ),
            valid_utf8(self.body()) ==> r == json_outcome_of(json_parse_of(decode_utf8(self.body()))),
    {
        let text = match self.as_str() {
            Ok(text) => text,
            Err(err) => return Err(err),
        };
        proof {
            encode_utf8_decode_utf8(text@);
        }
        json_outcome(parse_json_value(text))
    }

    /// Returns a reference to the contained bytes of the body. If you want
    /// the `Vec<u8>` itself, use `into_bytes()` instead.
    pub fn as_bytes(&self) -> (r: &[u8])
        ensures
            r@ == self.body(),
    {
        self.body.as_slice()
    }

    /// Turns the `Response` into the inner `Vec<u8>`, the bytes that make up
    /// the response's body.
    pub fn into_bytes(self) -> (r: Vec<u8>)
        ensures
            r@ == self.body(),
    {
        self.body
    }
}

/// Whether two byte sequences are the same.
fn same_bytes(a: &Vec<u8>, b: &Vec<u8>) -> (r: bool)
    ensures
        r == (a@ == b@),
{
    if a.len() != b.len() {
        return false;
    }
    let mut i: usize = 0;
    while i < a.len()
        invariant
            i <= a.len() == b.len(),
            forall|j: int| 0 <= j < i ==> a@[j] == b@[j],
        decreases a.len() - i,
    {
        if a[i] != b[i] {
            return false;
        }
        i += 1;
    }
    assert(a@ =~= b@);
    true
}

/// A copy of the bytes.
fn copy_bytes(a: &Vec<u8>) -> (r: Vec<u8>)
    ensures
        r@ == a@,
{
    let mut r: Vec<u8> = Vec::new();
    let mut i: usize = 0;
    while i < a.len()
        invariant
            i <= a.len(),
            r@ == a@.take(i as int),
        decreases a.len() - i,
    {
        r.push(a[i]);
        i += 1;
        assert(r@ =~= a@.take(i as int));
    }
    assert(a@.take(a.len() as int) =~= a@);
    r
}

impl PartialEq for Response {
    /// Whether both have the same status, reason phrase, header fields, URL
    /// and body.
    fn eq(&self, other: &Response) -> (r: bool) {
        self.status_code == other.status_code && self.reason_phrase == other.reason_phrase
            && self.headers == other.headers && self.url == other.url && same_bytes(
            &self.body,
            &other.body,
        )
    }
}

impl PartialEqSpecImpl for Response {
    open spec fn obeys_eq_spec() -> bool {
        true
    }

    open spec fn eq_spec(&self, other: &Response) -> bool {
        &&& self.status_of() == other.status_of()
        &&& self.reason_of() == other.reason_of()
        &&& self.headers_of()@ == other.headers_of()@
        &&& self.url_of() == other.url_of()
        &&& self.body() == other.body()
    }
}

impl Clone for Response {
    /// A copy with the same status, reason phrase, header fields in the
    /// same order, URL and body.
    fn clone(&self) -> (r: Response)
        ensures
            r.status_of() == self.status_of(),
            r.reason_of() == self.reason_of(),
            r.headers_of().pairs() == self.headers_of().pairs(),
            r.headers_of()@ == self.headers_of()@,
            r.url_of() == self.url_of(),
            r.body() == self.body(),
    {
        Response {
            status_code: self.status_code,
            reason_phrase: self.reason_phrase.clone(),
            headers: self.headers.clone(),
            url: self.url.clone(),
            body: copy_bytes(&self.body),
        }
    }
}

/// Of every read, the body takes no more than the read holds and no more
/// than is still due; the expected length reported with the piece is at
/// most 16 KiB, at most what is still due, and exactly what is still due
/// when that is no more than 16 KiB, however large the length the server
/// announced.
pub proof fn lemma_expected_length_capped(st: HttpStreamState, available: nat)
    ensures
        body_piece(st, available) matches Some((take, expected)) ==> {
            let due: nat = match st {
                HttpStreamState::ContentLength(left) => left as nat,
                HttpStreamState::Chunked(_, left, _, _) => left as nat,
                HttpStreamState::EndOnClose => 0,
            };
            &&& take <= available
            &&& take <= due
            &&& expected <= MAX_CONTENT_LENGTH
            &&& expected <= due
            &&& (due <= MAX_CONTENT_LENGTH ==> expected == due)
            &&& (take <= MAX_CONTENT_LENGTH ==> take <= expected)
        },
{
}

/// A body that is over stays over: no read gives it more bytes, and
/// taking a read leaves its state as it is.
pub proof fn lemma_finished_body_stays_finished(st: HttpStreamState, available: nat)
    requires
        action_for(st) is Done,
    ensures
        body_piece(st, available) is None,
        after_piece(st, available) == st,
        finished(st) == st,
{
}

/// The pieces of a chunk add up to the chunk: after the body's part of a
/// read, what is left of the current chunk is what was left before less
/// that part, and the line closing the chunk's data is due exactly when
/// nothing is left.
pub proof fn lemma_chunk_pieces_add_up(more: bool, left: usize, count: usize, available: nat)
    requires
        left > 0,
    ensures
        body_piece(HttpStreamState::Chunked(more, left, count, false), available) matches Some(
            (take, _),
        ) && after_piece(HttpStreamState::Chunked(more, left, count, false), available)
            == HttpStreamState::Chunked(more, (left - take) as usize, count, take == left),
{
}

/// The number of body bytes still due in state `st`: what is left of the
/// announced length, or of the current chunk.
pub open spec fn bytes_due(st: HttpStreamState) -> nat {
    match st {
        HttpStreamState::ContentLength(left) => left as nat,
        HttpStreamState::Chunked(_, left, _, _) => left as nat,
        HttpStreamState::EndOnClose => 0,
    }
}

/// The body bytes that the reads `reads`, taken in turn (by `take_content`
/// or `take_chunk_data`) from the state `st`, hand on, and the state after
/// them. Of each read, the bytes beyond what is due are left unread;
/// taking stops once nothing is due.
pub open spec fn pieces_taken(st: HttpStreamState, reads: Seq<Seq<u8>>) -> (Seq<u8>, HttpStreamState)
    decreases reads.len(),
{
    if reads.len() == 0 {
        (Seq::empty(), st)
    } else {
        match body_piece(st, reads[0].len()) {
            None => (Seq::empty(), st),
            Some((take, _)) => {
                let rest = pieces_taken(after_piece(st, reads[0].len()), reads.drop_first());
                (reads[0].take(take as int) + rest.0, rest.1)
            },
        }
    }
}

/// However the connection splits the bytes into reads, the pieces taken
/// from a body whose length was given, or from a chunk, are exactly the
/// bytes due: the first ones the reads deliver, nothing before or after
/// them; afterwards nothing is due.
pub proof fn lemma_pieces_are_the_due_bytes(st: HttpStreamState, reads: Seq<Seq<u8>>)
    requires
        !(st is EndOnClose),
        reads.flatten().len() >= bytes_due(st),
    ensures
        pieces_taken(st, reads).0 == reads.flatten().take(bytes_due(st) as int),
        bytes_due(pieces_taken(st, reads).1) == 0,
    decreases reads.len(),
{
    let d = bytes_due(st);
    if d == 0 {
        if reads.len() > 0 {
            assert(body_piece(st, reads[0].len()) is None);
        }
        assert(reads.flatten().take(0) =~= Seq::<u8>::empty());
    } else {
        assert(reads.len() > 0);
        let r0 = reads[0];
        let rest = reads.drop_first();
        assert(reads.flatten() == r0 + rest.flatten());
        let take = min_len(r0.len(), d);
        let st2 = after_piece(st, r0.len());
        assert(bytes_due(st2) == d - take);
        assert(body_piece(st, r0.len()) == Some((take, min_len(d, MAX_CONTENT_LENGTH as nat))));
        assert(pieces_taken(st, reads) == (
            r0.take(take as int) + pieces_taken(st2, rest).0,
            pieces_taken(st2, rest).1,
        ));
        if r0.len() <= d {
            lemma_pieces_are_the_due_bytes(st2, rest);
            assert(r0.take(take as int) + rest.flatten().take((d - take) as int) =~= (r0
                + rest.flatten()).take(d as int));
        } else {
            if rest.len() > 0 {
                assert(body_piece(st2, rest[0].len()) is None);
            }
            assert(pieces_taken(st2, rest) == (Seq::<u8>::empty(), st2));
            assert(r0.take(d as int) + Seq::<u8>::empty() =~= (r0 + rest.flatten()).take(d as int));
        }
    }
}

/// The body bytes of the chunks of a chunked body, each given as its size
/// line, the reads that deliver its data, and the line that closes it.
pub open spec fn chunk_payloads(chunks: Seq<(Seq<char>, Seq<Seq<u8>>, Seq<char>)>) -> Seq<u8>
    decreases chunks.len(),
{
    if chunks.len() == 0 {
        Seq::empty()
    } else {
        chunks[0].1.flatten() + chunk_payloads(chunks.drop_first())
    }
}

/// The body bytes handed on, and the state after, when the chunks `chunks`
/// are read in turn from the state `st` (`take_chunk_size`, then
/// `take_chunk_data` for each read, then `take_chunk_end`); `None` when a
/// line is refused or a chunk size line does not start a chunk.
pub open spec fn chunks_run(st: HttpStreamState, chunks: Seq<(Seq<char>, Seq<Seq<u8>>, Seq<char>)>) -> Option<
    (Seq<u8>, HttpStreamState),
>
    decreases chunks.len(),
{
    if chunks.len() == 0 {
        Some((Seq::empty(), st))
    } else {
        match size_line_step(st, chunks[0].0) {
            None => None,
            Some(st1) => if action_for(st1) is ReadChunkData {
                let taken = pieces_taken(st1, chunks[0].1);
                match end_line_step(taken.1, chunks[0].2) {
                    None => None,
                    Some(st3) => match chunks_run(st3, chunks.drop_first()) {
                        None => None,
                        Some((rest, st4)) => Some((taken.0 + rest, st4)),
                    },
                }
            } else {
                None
            },
        }
    }
}

/// A chunked body decodes to its chunks' data: chunks with non-zero sizes,
/// each delivered in any number of reads that hold exactly its data and
/// closed by an empty line, hand on exactly their data, one after the
/// other, and count its length; no size line, CR LF or trailer byte gets
/// into the body.
pub proof fn lemma_chunks_decode(more: bool, count: usize, chunks: Seq<(Seq<char>, Seq<Seq<u8>>, Seq<char>)>)
    requires
        forall|i: int|
            #![trigger chunks[i]]
            0 <= i < chunks.len() ==> chunk_size_meaning(chunks[i].0) == Some(chunks[i].1.flatten().len())
                && chunks[i].1.flatten().len() > 0 && chunks[i].2.len() == 0,
        count + chunk_payloads(chunks).len() <= usize::MAX,
    ensures
        chunks_run(HttpStreamState::Chunked(more, 0, count, false), chunks) == Some(
            (
                chunk_payloads(chunks),
                HttpStreamState::Chunked(
                    more,
                    0,
                    (count + chunk_payloads(chunks).len()) as usize,
                    false,
                ),
            ),
        ),
    decreases chunks.len(),
{
    if chunks.len() > 0 {
        let c0 = chunks[0];
        let n = c0.1.flatten().len();
        let rest = chunks.drop_first();
        assert(chunk_payloads(chunks) == c0.1.flatten() + chunk_payloads(rest));
        let st = HttpStreamState::Chunked(more, 0, count, false);
        let st1 = HttpStreamState::Chunked(more, n as usize, (count + n) as usize, false);
        assert(size_line_step(st, c0.0) == Some(st1));
        lemma_pieces_are_the_due_bytes(st1, c0.1);
        let taken = pieces_taken(st1, c0.1);
        assert(c0.1.flatten().take(n as int) =~= c0.1.flatten());
        lemma_pieces_state(st1, c0.1);
        assert(taken.1 == HttpStreamState::Chunked(more, 0, (count + n) as usize, true));
        let st3 = HttpStreamState::Chunked(more, 0, (count + n) as usize, false);
        assert(end_line_step(taken.1, c0.2) == Some(st3));
        assert forall|i: int| 0 <= i < rest.len() implies chunk_size_meaning(#[trigger] rest[i].0)
            == Some(rest[i].1.flatten().len()) && rest[i].1.flatten().len() > 0 && rest[i].2.len()
            == 0 by {
            assert(rest[i] == chunks[i + 1]);
        }
        lemma_chunks_decode(more, (count + n) as usize, rest);
        assert(taken.0 + chunk_payloads(rest) == chunk_payloads(chunks));
    } else {
        assert(chunk_payloads(chunks) =~= Seq::<u8>::empty());
    }
}

/// Taking the whole of a chunk leaves the chunk's other fields as they were
/// and makes the line that closes its data due.
proof fn lemma_pieces_state(st: HttpStreamState, reads: Seq<Seq<u8>>)
    requires
        st matches HttpStreamState::Chunked(_, left, _, _) && left > 0,
        reads.flatten().len() >= bytes_due(st),
    ensures
        match st {
            HttpStreamState::Chunked(more, _, count, _) => pieces_taken(st, reads).1
                == HttpStreamState::Chunked(more, 0, count, true),
            _ => true,
        },
    decreases reads.len(),
{
    let d = bytes_due(st);
    let r0 = reads[0];
    let rest = reads.drop_first();
    assert(reads.flatten() == r0 + rest.flatten());
    let st2 = after_piece(st, r0.len());
    if r0.len() < d {
        lemma_pieces_state(st2, rest);
    } else if rest.len() > 0 {
        assert(body_piece(st2, rest[0].len()) is None);
    }
}

/// The state and header fields after `take_trailer_line` has taken the
/// lines `lines` in turn, starting from the state `st`, the fields `h` and
/// the size limit `budget`: `None` when a line does not fit in what is left
/// of the limit or the lines end before the line that ends the section.
pub open spec fn trailer_run(
    st: HttpStreamState,
    h: Map<Seq<char>, Seq<char>>,
    budget: Option<usize>,
    lines: Seq<Seq<char>>,
) -> Option<(HttpStreamState, Map<Seq<char>, Seq<char>>)>
    decreases lines.len(),
{
    if lines.len() == 0 {
        None
    } else {
        match budget_after(budget, utf8_len(lines[0])) {
            None => None,
            Some(left) => match header_meaning(lines[0]) {
                Some((name, value)) => trailer_run(st, h.insert(name, value), left, lines.drop_first()),
                None => Some((finished(st), finished_headers(st, h))),
            },
        }
    }
}

/// Reading a trailer section: fields that fit in the size limit, then a
/// line that is no field (such as the empty line), set those fields in
/// order, and then end the body: `content-length` gives the count of body
/// bytes and `transfer-encoding` is gone.
pub proof fn lemma_trailer_section(
    st: HttpStreamState,
    h: Map<Seq<char>, Seq<char>>,
    budget: Option<usize>,
    fields: Seq<Seq<char>>,
    end: Seq<char>,
)
    requires
        forall|i: int| 0 <= i < fields.len() ==> (#[trigger] header_meaning(fields[i])) is Some,
        header_meaning(end) is None,
        budget matches Some(b) ==> lines_size(fields.push(end)) <= b,
    ensures
        trailer_run(st, h, budget, fields.push(end)) == Some(
            (finished(st), finished_headers(st, fields_inserted(h, fields))),
        ),
    decreases fields.len(),
{
    let all = fields.push(end);
    if fields.len() == 0 {
        assert(all[0] == end);
        assert(all.drop_first() =~= Seq::<Seq<char>>::empty());
    } else {
        assert(all[0] == fields[0]);
        assert(header_meaning(fields[0]) is Some);
        assert(all.drop_first() =~= fields.drop_first().push(end));
        assert forall|i: int| 0 <= i < fields.drop_first().len() implies (#[trigger] header_meaning(
            fields.drop_first()[i],
        )) is Some by {
            assert(fields.drop_first()[i] == fields[i + 1]);
        }
        let h2 = match header_meaning(fields[0]) {
            Some((name, value)) => h.insert(name, value),
            None => h,
        };
        match budget {
            None => {
                lemma_trailer_section(st, h2, None, fields.drop_first(), end);
            },
            Some(b) => {
                let left = (b - utf8_len(fields[0]) - 2) as usize;
                lemma_trailer_section(st, h2, Some(left), fields.drop_first(), end);
            },
        }
    }
}

/// A whole chunked body, from the first size line to the end of the
/// trailer section: its chunks hand on exactly their data; the last chunk
/// makes the trailer section due; the trailer fields are set in order; and
/// at the end the body is over, `content-length` reads back as the length
/// of the data, and `transfer-encoding` is gone.
pub proof fn lemma_chunked_body(
    h: Map<Seq<char>, Seq<char>>,
    budget: Option<usize>,
    chunks: Seq<(Seq<char>, Seq<Seq<u8>>, Seq<char>)>,
    last: Seq<char>,
    fields: Seq<Seq<char>>,
    end: Seq<char>,
)
    requires
        forall|i: int|
            #![trigger chunks[i]]
            0 <= i < chunks.len() ==> chunk_size_meaning(chunks[i].0) == Some(chunks[i].1.flatten().len())
                && chunks[i].1.flatten().len() > 0 && chunks[i].2.len() == 0,
        chunk_payloads(chunks).len() <= usize::MAX,
        chunk_size_meaning(last) == Some(0nat),
        forall|i: int| 0 <= i < fields.len() ==> (#[trigger] header_meaning(fields[i])) is Some,
        header_meaning(end) is None,
        budget matches Some(b) ==> lines_size(fields.push(end)) <= b,
    ensures
        ({
            let len = chunk_payloads(chunks).len() as usize;
            let data_done = HttpStreamState::Chunked(true, 0, len, false);
            let trailers_due = HttpStreamState::Chunked(false, 0, len, true);
            let over = HttpStreamState::Chunked(false, 0, len, false);
            let headers = finished_headers(trailers_due, fields_inserted(h, fields));
            &&& chunks_run(HttpStreamState::Chunked(true, 0, 0, false), chunks) == Some(
                (chunk_payloads(chunks), data_done),
            )
            &&& size_line_step(data_done, last) == Some(trailers_due)
            &&& trailer_run(trailers_due, h, budget, fields.push(end)) == Some((over, headers))
            &&& action_for(over) is Done
            &&& content_length_meaning(headers["content-length"@]) == Some(len as nat)
            &&& !headers.contains_key("transfer-encoding"@)
        }),
{
    let len = chunk_payloads(chunks).len() as usize;
    lemma_chunks_decode(true, 0, chunks);
    let trailers_due = HttpStreamState::Chunked(false, 0, len, true);
    lemma_trailer_section(trailers_due, h, budget, fields, end);
    lemma_finished_headers(false, 0, len, true, fields_inserted(h, fields));
}

/// Whatever the trailer section set, once a chunked body is over its
/// `content-length` field reads back as the count of body bytes its chunks
/// announced, and it has no `transfer-encoding` field.
pub proof fn lemma_finished_headers(
    more: bool,
    left: usize,
    count: usize,
    line_due: bool,
    h: Map<Seq<char>, Seq<char>>,
)
    ensures
        ({
            let f = finished_headers(HttpStreamState::Chunked(more, left, count, line_due), h);
            &&& f.contains_key("content-length"@)
            &&& content_length_meaning(f["content-length"@]) == Some(count as nat)
            &&& !f.contains_key("transfer-encoding"@)
        }),
{
    reveal_strlit("content-length");
    reveal_strlit("transfer-encoding");
    assert("content-length"@.len() != "transfer-encoding"@.len());
    lemma_counted_length_reads_back(count);
}

/// Which responses carry a body: to a request that is not HEAD, every
/// response but 204 (No Content) and 304 (Not Modified), error statuses
/// such as 404 and 500 included; to a HEAD request, none.
pub proof fn lemma_body_expected_statuses(status_code: i32)
    ensures
        body_expected(status_code, false) <==> (status_code != 204 && status_code != 304),
        !body_expected(status_code, true),
        400 <= status_code < 600 ==> body_expected(status_code, false),
        100 <= status_code < 204 ==> body_expected(status_code, false),
{
}

/// The `content-length` field that ends a chunked body reads back as the
/// number of bytes that its chunks announced.
pub proof fn lemma_counted_length_reads_back(count: usize)
    ensures
        content_length_meaning(decimal(count as nat)) == Some(count as nat),
{
    lemma_decimal_trimmed(count as nat);
    lemma_decimal_round_trip(count as nat, usize::MAX as nat);
}

} // verus!
