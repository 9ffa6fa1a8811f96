//! Fetching a response from the network service, message by message.
//!
//! A [`Transfer`] decides and never waits: it names the message that is due, takes the answer,
//! and in the end holds what became of the response.

use vstd::prelude::*;

use crate::api;
use crate::api::{ApiError, HttpFailure, Resource};
use crate::text;

verus! {

/// The largest header block that the store reads.
pub const MAX_HEADERS_BYTES: usize = 16 * 1024;

/// The parts of a response that the network service hands out.
#[derive(Clone, Copy, Debug, PartialEq, Eq, Structural)]
pub enum HttpStream {
    Headers,
    Body,
}

/// What the network service says of a request when its response is there.
pub struct HttpResult {
    pub request_id: u64,
    pub status: i32,
    pub failure: HttpFailure,
    pub status_code: u16,
    pub handle: u64,
    pub content_type: String,
    pub headers_length: usize,
    pub body_length: usize,
}

/// The answer of the network service to a message that reads or closes a response.
pub struct ReadReply {
    pub request_id: u64,
    pub status: i32,
    pub failure: HttpFailure,
    pub handle: u64,
    pub complete: bool,
    pub data: Vec<u8>,
}

/// What a caller does next with a transfer.
pub enum Action {
    /// Ask for at most `maximum` further bytes of `stream`.
    Read { request_id: u64, handle: u64, stream: HttpStream, maximum: usize },
    /// Close the response.
    Close { request_id: u64, handle: u64 },
    /// Nothing: the result is there.
    Finish,
}

/// The error for a call that the system refused with `errno`.
pub open spec fn unavailable(errno: Option<u64>) -> ApiError {
    match errno {
        Some(errno) => ApiError::ServiceUnavailable(errno),
        None => ApiError::ServiceUnavailable(0),
    }
}

/// The error for a call that the system refused, `0` standing for an unknown error number.
pub fn service_unavailable(errno: Option<u64>) -> (error: ApiError)
    ensures
        error == unavailable(errno),
{
    match errno {
        Some(errno) => ApiError::ServiceUnavailable(errno),
        None => ApiError::ServiceUnavailable(0),
    }
}

/// The network service that a search by name found, or why there is none.
pub open spec fn found_service(found: Result<u64, Option<u64>>, not_found: u64) -> Result<
    u64,
    ApiError,
> {
    match found {
        Err(errno) => Err(unavailable(errno)),
        Ok(number) => if number == 0 {
            Err(ApiError::ServiceUnavailable(not_found))
        } else {
            Ok(number)
        },
    }
}

/// The length of the reply to a call, or why there is none.
pub open spec fn reply_length(result: Result<u64, Option<u64>>, room: usize) -> Result<
    usize,
    ApiError,
> {
    match result {
        Err(errno) => Err(unavailable(errno)),
        Ok(value) => if value % 0x1_0000_0000 <= room {
            Ok((value % 0x1_0000_0000) as usize)
        } else {
            Err(ApiError::Protocol)
        },
    }
}

/// The network service that a search by name found. A service with number zero is no service:
/// the error then carries `not_found`, the system's number for a missing entry.
pub fn network_service(found: Result<u64, Option<u64>>, not_found: u64) -> (service: Result<
    u64,
    ApiError,
>)
    ensures
        service == found_service(found, not_found),
        match found {
            Err(errno) => service == Err::<u64, ApiError>(unavailable(errno)),
            Ok(number) => service == (if number == 0 {
                Err(ApiError::ServiceUnavailable(not_found))
            } else {
                Ok(number)
            }),
        },
{
    match found {
        Err(errno) => Err(service_unavailable(errno)),
        Ok(number) => if number == 0 {
            Err(ApiError::ServiceUnavailable(not_found))
        } else {
            Ok(number)
        },
    }
}

/// The length of the reply to a call, which the lower half of the call's result holds. No reply
/// is longer than the `room` that was made for it.
pub fn call(result: Result<u64, Option<u64>>, room: usize) -> (length: Result<usize, ApiError>)
    ensures
        length == reply_length(result, room),
        match result {
            Err(errno) => length == Err::<usize, ApiError>(unavailable(errno)),
            Ok(value) => if value % 0x1_0000_0000 <= room {
                length == Ok::<usize, ApiError>((value % 0x1_0000_0000) as usize)
            } else {
                length == Err::<usize, ApiError>(ApiError::Protocol)
            },
        },
{
    match result {
        Err(errno) => Err(service_unavailable(errno)),
        Ok(value) => {
            assert(value & 0xffff_ffff == value % 0x1_0000_0000) by (bit_vector);
            assert(value & 0xffff_ffff <= 0xffff_ffff) by (bit_vector);
            let length: usize = (value & 0xffff_ffff) as usize;
            if length > room {
                Err(ApiError::Protocol)
            } else {
                Ok(length)
            }
        },
    }
}

/// Whether the network service reports that it did its part.
pub open spec fn served(status: i32, failure: HttpFailure) -> bool {
    status == 0 && failure is NoFailure
}

/// Whether the network service reports that it did its part.
fn is_served(status: i32, failure: &HttpFailure) -> (yes: bool)
    ensures
        yes == served(status, *failure),
{
    match failure {
        HttpFailure::NoFailure => status == 0,
        HttpFailure::Failed(_) => false,
    }
}

/// What is wrong with an answer to a message that reads from the response `handle`.
pub open spec fn read_fault(reply: ReadReply, request_id: u64, handle: u64) -> Option<ApiError> {
    if reply.request_id != request_id {
        Some(ApiError::RequestIdMismatch)
    } else if reply.handle != handle {
        Some(ApiError::HandleMismatch)
    } else if !served(reply.status, reply.failure) {
        Some(ApiError::ServiceFailure { status: reply.status, failure: reply.failure })
    } else if reply.data@.len() == 0 && !reply.complete {
        Some(ApiError::Truncated)
    } else {
        None
    }
}

/// What is wrong with an answer to the message that closes the response `handle`.
pub open spec fn close_fault(reply: ReadReply, request_id: u64, handle: u64) -> Option<ApiError> {
    if reply.request_id != request_id {
        Some(ApiError::RequestIdMismatch)
    } else if reply.handle != handle || !reply.complete || reply.data@.len() != 0 {
        Some(ApiError::HandleMismatch)
    } else if !served(reply.status, reply.failure) {
        Some(ApiError::ServiceFailure { status: reply.status, failure: reply.failure })
    } else {
        None
    }
}

/// Whether the response is closed, by the answer to the message that closes it.
pub open spec fn close_result(
    request_id: u64,
    handle: u64,
    reply: Result<ReadReply, ApiError>,
) -> Result<(), ApiError> {
    match reply {
        Err(error) => Err(error),
        Ok(reply) => match close_fault(reply, request_id, handle) {
            Some(error) => Err(error),
            None => Ok(()),
        },
    }
}

/// Whether the response is closed, by the answer to the message that closes it.
pub fn close(request_id: u64, handle: u64, reply: Result<ReadReply, ApiError>) -> (closed: Result<
    (),
    ApiError,
>)
    ensures
        closed == close_result(request_id, handle, reply),
{
    match reply {
        Err(error) => Err(error),
        Ok(reply) => if reply.request_id != request_id {
            Err(ApiError::RequestIdMismatch)
        } else if reply.handle != handle || !reply.complete || !reply.data.is_empty() {
            Err(ApiError::HandleMismatch)
        } else if !is_served(reply.status, &reply.failure) {
            Err(ApiError::ServiceFailure { status: reply.status, failure: reply.failure })
        } else {
            Ok(())
        },
    }
}

/// A result with the bytes of a vector in place of the vector.
pub open spec fn bytes_of(result: Result<Vec<u8>, ApiError>) -> Result<Seq<u8>, ApiError> {
    match result {
        Ok(bytes) => Ok(bytes@),
        Err(error) => Err(error),
    }
}

/// Where the reading of one stream stands.
pub enum StreamState {
    /// These bytes have come, and more are due.
    Open(Seq<u8>),
    /// The reading is over.
    Over(Result<Seq<u8>, ApiError>),
}

/// The start of reading a stream of `expected` bytes. An empty stream is not read at all.
pub open spec fn stream_start(expected: nat) -> StreamState {
    if expected == 0 {
        StreamState::Over(Ok(Seq::empty()))
    } else {
        StreamState::Open(Seq::empty())
    }
}

/// The reading of a stream of `expected` bytes, of which `output` has come, after one more
/// answer.
pub open spec fn stream_next(
    request_id: u64,
    handle: u64,
    expected: nat,
    output: Seq<u8>,
    reply: Result<ReadReply, ApiError>,
) -> StreamState {
    match reply {
        Err(error) => StreamState::Over(Err(error)),
        Ok(reply) => match read_fault(reply, request_id, handle) {
            Some(error) => StreamState::Over(Err(error)),
            None => {
                let longer = output + reply.data@;
                if longer.len() < expected && !reply.complete {
                    StreamState::Open(longer)
                } else if longer.len() == expected && reply.complete {
                    StreamState::Over(Ok(longer))
                } else {
                    StreamState::Over(Err(ApiError::Truncated))
                }
            },
        },
    }
}

/// How far the reading of a stream has come.
pub enum Progress {
    /// These bytes have come, and more are due.
    Open(Vec<u8>),
    /// The reading is over.
    Over(Result<Vec<u8>, ApiError>),
}

impl View for Progress {
    type V = StreamState;

    open spec fn view(&self) -> StreamState {
        match *self {
            Progress::Open(output) => StreamState::Open(output@),
            Progress::Over(result) => StreamState::Over(bytes_of(result)),
        }
    }
}

/// Reads on in a stream of `expected` bytes, of which `output` has come, with one more answer.
pub fn read_stream(
    request_id: u64,
    handle: u64,
    expected: usize,
    output: Vec<u8>,
    reply: Result<ReadReply, ApiError>,
) -> (progress: Progress)
    ensures
        progress@ == stream_next(request_id, handle, expected as nat, output@, reply),
{
    match reply {
        Err(error) => Progress::Over(Err(error)),
        Ok(reply) => {
            if reply.request_id != request_id {
                return Progress::Over(Err(ApiError::RequestIdMismatch));
            }
            if reply.handle != handle {
                return Progress::Over(Err(ApiError::HandleMismatch));
            }
            if !is_served(reply.status, &reply.failure) {
                return Progress::Over(
                    Err(
                        ApiError::ServiceFailure { status: reply.status, failure: reply.failure },
                    ),
                );
            }
            if reply.data.is_empty() && !reply.complete {
                return Progress::Over(Err(ApiError::Truncated));
            }
            let mut longer = output;
            let mut data = reply.data;
            longer.append(&mut data);
            if longer.len() < expected && !reply.complete {
                Progress::Open(longer)
            } else if longer.len() == expected && reply.complete {
                Progress::Over(Ok(longer))
            } else {
                Progress::Over(Err(ApiError::Truncated))
            }
        },
    }
}

/// Where a transfer stands.
pub enum TransferPhase {
    /// `output` has come of the `expected` bytes of a stream.
    Reading { stream: HttpStream, expected: nat, output: Seq<u8> },
    /// The outcome is known, and the response is to be closed.
    Closing(Result<Seq<u8>, ApiError>),
    /// The transfer is over.
    Finished(Result<Seq<u8>, ApiError>),
}

/// What a transfer is, as a value.
pub struct TransferState {
    pub request_id: u64,
    pub handle: u64,
    pub body_length: nat,
    pub phase: TransferPhase,
}

impl TransferState {
    /// The same transfer in another phase.
    pub open spec fn at(self, phase: TransferPhase) -> TransferState {
        TransferState { phase, ..self }
    }

    /// The transfer when the reading of `stream` is over: the body follows the headers, and
    /// nothing follows a fault or the body.
    pub open spec fn behind(
        self,
        stream: HttpStream,
        result: Result<Seq<u8>, ApiError>,
    ) -> TransferState {
        match (stream, result) {
            (HttpStream::Headers, Ok(_)) => self.at(
                TransferPhase::Reading {
                    stream: HttpStream::Body,
                    expected: self.body_length,
                    output: Seq::empty(),
                },
            ),
            _ => self.at(TransferPhase::Closing(result)),
        }
    }

    /// The transfer of a response whose head is accepted: its headers are read first.
    pub open spec fn opened(self, headers_length: nat) -> TransferState {
        match stream_start(headers_length) {
            StreamState::Open(output) => self.at(
                TransferPhase::Reading {
                    stream: HttpStream::Headers,
                    expected: headers_length,
                    output,
                },
            ),
            StreamState::Over(result) => self.behind(HttpStream::Headers, result),
        }
    }

    /// What is to be done next, where no message carries more than `chunk_limit` bytes.
    pub open spec fn due(self, chunk_limit: usize) -> Action {
        match self.phase {
            TransferPhase::Reading { stream, expected, output } => Action::Read {
                request_id: self.request_id,
                handle: self.handle,
                stream,
                maximum: vstd::math::min(
                    expected - output.len(),
                    chunk_limit as int,
                ) as usize,
            },
            TransferPhase::Closing(_) => Action::Close {
                request_id: self.request_id,
                handle: self.handle,
            },
            TransferPhase::Finished(_) => Action::Finish,
        }
    }

    /// The transfer after the answer to the message that was due.
    pub open spec fn advanced(self, reply: Result<ReadReply, ApiError>) -> TransferState {
        match self.phase {
            TransferPhase::Reading { stream, expected, output } => match stream_next(
                self.request_id,
                self.handle,
                expected,
                output,
                reply,
            ) {
                StreamState::Open(output) => self.at(
                    TransferPhase::Reading { stream, expected, output },
                ),
                StreamState::Over(result) => self.behind(stream, result),
            },
            TransferPhase::Closing(outcome) => self.at(
                TransferPhase::Finished(
                    match (outcome, close_result(self.request_id, self.handle, reply)) {
                        (Ok(body), Ok(())) => Ok(body),
                        (Err(error), _) => Err(error),
                        (Ok(_), Err(error)) => Err(error),
                    },
                ),
            ),
            TransferPhase::Finished(_) => self,
        }
    }
}

/// What is wrong with the head of a response that the network service could get.
pub open spec fn head_fault(result: HttpResult, resource: Resource) -> Option<ApiError> {
    if !api::accepts_status(resource, result.status_code) {
        Some(ApiError::HttpStatus(result.status_code))
    } else if !api::accepts_media_type(resource, api::media_type_of(result.content_type@)) {
        Some(ApiError::InvalidContentType)
    } else if result.body_length == 0 || result.body_length > api::body_limit(resource)
        || result.headers_length > MAX_HEADERS_BYTES {
        Some(ApiError::ResponseTooLarge)
    } else {
        None
    }
}

/// The start of fetching a response. Where the network service failed there is no response to
/// close; a response with a faulty head is closed unread.
pub open spec fn transfer_start(result: HttpResult, resource: Resource) -> TransferState {
    let transfer = TransferState {
        request_id: result.request_id,
        handle: result.handle,
        body_length: result.body_length as nat,
        phase: TransferPhase::Finished(
            Err(ApiError::ServiceFailure { status: result.status, failure: result.failure }),
        ),
    };
    if !served(result.status, result.failure) {
        transfer
    } else {
        match head_fault(result, resource) {
            Some(error) => transfer.at(TransferPhase::Closing(Err(error))),
            None => transfer.opened(result.headers_length as nat),
        }
    }
}

/// The phase of a transfer, with the bytes that have come.
enum Phase {
    Reading { stream: HttpStream, expected: usize, output: Vec<u8> },
    Closing(Result<Vec<u8>, ApiError>),
    Finished(Result<Vec<u8>, ApiError>),
}

/// The fetching of one response.
pub struct Transfer {
    request_id: u64,
    handle: u64,
    body_length: usize,
    phase: Phase,
}

impl View for Transfer {
    type V = TransferState;

    closed spec fn view(&self) -> TransferState {
        TransferState {
            request_id: self.request_id,
            handle: self.handle,
            body_length: self.body_length as nat,
            phase: match self.phase {
                Phase::Reading { stream, expected, output } => TransferPhase::Reading {
                    stream,
                    expected: expected as nat,
                    output: output@,
                },
                Phase::Closing(outcome) => TransferPhase::Closing(bytes_of(outcome)),
                Phase::Finished(result) => TransferPhase::Finished(bytes_of(result)),
            },
        }
    }
}

impl Transfer {
    /// A stream that is being read has bytes left, and so has the body behind it.
    #[verifier::type_invariant]
    spec fn has_bytes_left(self) -> bool {
        match self.phase {
            Phase::Reading { expected, output, .. } => output@.len() < expected && 0
                < self.body_length,
            _ => true,
        }
    }

    /// The transfer when its body is to be read.
    fn reading_body(request_id: u64, handle: u64, body_length: usize) -> (transfer: Transfer)
        requires
            body_length > 0,
        ensures
            transfer@ == (TransferState {
                request_id,
                handle,
                body_length: body_length as nat,
                phase: TransferPhase::Reading {
                    stream: HttpStream::Body,
                    expected: body_length as nat,
                    output: Seq::empty(),
                },
            }),
    {
        Transfer {
            request_id,
            handle,
            body_length,
            phase: Phase::Reading {
                stream: HttpStream::Body,
                expected: body_length,
                output: Vec::new(),
            },
        }
    }

    /// What to do next. No read asks for more than `chunk_limit` bytes, the most that one message
    /// of the network service carries.
    pub fn action(&self, chunk_limit: usize) -> (action: Action)
        ensures
            action == self@.due(chunk_limit),
            match self@.phase {
                TransferPhase::Reading { stream, expected, output } => {
                    &&& output.len() < expected
                    &&& action == (Action::Read {
                        request_id: self@.request_id,
                        handle: self@.handle,
                        stream,
                        maximum: vstd::math::min(
                            expected - output.len(),
                            chunk_limit as int,
                        ) as usize,
                    })
                },
                TransferPhase::Closing(_) => action == (Action::Close {
                    request_id: self@.request_id,
                    handle: self@.handle,
                }),
                TransferPhase::Finished(_) => action is Finish,
            },
    {
        proof {
            use_type_invariant(self);
        }
        match &self.phase {
            Phase::Reading { stream, expected, output } => {
                let left: usize = *expected - output.len();
                Action::Read {
                    request_id: self.request_id,
                    handle: self.handle,
                    stream: *stream,
                    maximum: if left <= chunk_limit {
                        left
                    } else {
                        chunk_limit
                    },
                }
            },
            Phase::Closing(_) => Action::Close { request_id: self.request_id, handle: self.handle },
            Phase::Finished(_) => Action::Finish,
        }
    }

    /// Takes the answer to the message that was due.
    pub fn advance(self, reply: Result<ReadReply, ApiError>) -> (next: Transfer)
        ensures
            next@ == self@.advanced(reply),
    {
        proof {
            use_type_invariant(&self);
        }
        let request_id = self.request_id;
        let handle = self.handle;
        let body_length = self.body_length;
        match self.phase {
            Phase::Reading { stream, expected, output } => match read_stream(
                request_id,
                handle,
                expected,
                output,
                reply,
            ) {
                Progress::Open(output) => Transfer {
                    request_id,
                    handle,
                    body_length,
                    phase: Phase::Reading { stream, expected, output },
                },
                Progress::Over(result) => match (stream, result) {
                    (HttpStream::Headers, Ok(_)) => {
                        Transfer::reading_body(request_id, handle, body_length)
                    },
                    (_, result) => Transfer {
                        request_id,
                        handle,
                        body_length,
                        phase: Phase::Closing(result),
                    },
                },
            },
            Phase::Closing(outcome) => {
                let closed = close(request_id, handle, reply);
                let result = match (outcome, closed) {
                    (Ok(body), Ok(())) => Ok(body),
                    (Err(error), _) => Err(error),
                    (Ok(_), Err(error)) => Err(error),
                };
                Transfer { request_id, handle, body_length, phase: Phase::Finished(result) }
            },
            Phase::Finished(result) => Transfer {
                request_id,
                handle,
                body_length,
                phase: Phase::Finished(result),
            },
        }
    }

    /// What became of the response, once the transfer is over.
    pub fn into_result(self) -> (result: Option<Result<Vec<u8>, ApiError>>)
        ensures
            match self@.phase {
                TransferPhase::Finished(outcome) => result is Some && bytes_of(result->0)
                    == outcome,
                _ => result is None,
            },
    {
        match self.phase {
            Phase::Finished(result) => Some(result),
            _ => None,
        }
    }
}

/// Starts to fetch a response that the store asked for as `resource`.
pub fn finish_request(result: HttpResult, resource: Resource) -> (transfer: Transfer)
    ensures
        transfer@ == transfer_start(result, resource),
{
    let request_id = result.request_id;
    let handle = result.handle;
    let body_length = result.body_length;
    if !is_served(result.status, &result.failure) {
        return Transfer {
            request_id,
            handle,
            body_length,
            phase: Phase::Finished(
                Err(ApiError::ServiceFailure { status: result.status, failure: result.failure }),
            ),
        };
    }
    if !resource.valid_status(result.status_code) {
        return Transfer {
            request_id,
            handle,
            body_length,
            phase: Phase::Closing(Err(ApiError::HttpStatus(result.status_code))),
        };
    }
    let front = text::split_front(result.content_type.as_str(), ';');
    let media_type = text::trim(front.as_str());
    if !resource.valid_content_type(media_type.as_str()) {
        return Transfer {
            request_id,
            handle,
            body_length,
            phase: Phase::Closing(Err(ApiError::InvalidContentType)),
        };
    }
    if body_length == 0 || body_length > resource.maximum_body_bytes() || result.headers_length
        > MAX_HEADERS_BYTES {
        return Transfer {
            request_id,
            handle,
            body_length,
            phase: Phase::Closing(Err(ApiError::ResponseTooLarge)),
        };
    }
    if result.headers_length == 0 {
        Transfer::reading_body(request_id, handle, body_length)
    } else {
        Transfer {
            request_id,
            handle,
            body_length,
            phase: Phase::Reading {
                stream: HttpStream::Headers,
                expected: result.headers_length,
                output: Vec::new(),
            },
        }
    }
}

/// The transfer after all these answers, one after the other.
pub open spec fn run(
    transfer: TransferState,
    replies: Seq<Result<ReadReply, ApiError>>,
) -> TransferState
    decreases replies.len(),
{
    if replies.len() == 0 {
        transfer
    } else {
        run(transfer, replies.drop_last()).advanced(replies.last())
    }
}

/// The bytes that an answer carries.
pub open spec fn reply_data(reply: Result<ReadReply, ApiError>) -> Seq<u8> {
    match reply {
        Ok(reply) => reply.data@,
        Err(_) => Seq::empty(),
    }
}

/// The bytes that all these answers carry, one after the other.
pub open spec fn replies_data(replies: Seq<Result<ReadReply, ApiError>>) -> Seq<u8>
    decreases replies.len(),
{
    if replies.len() == 0 {
        Seq::empty()
    } else {
        replies_data(replies.drop_last()) + reply_data(replies.last())
    }
}

/// How many answers a transfer can still take before it is over.
spec fn answers_left(transfer: TransferState) -> int {
    match transfer.phase {
        TransferPhase::Reading { stream, expected, output } => expected - output.len() + (
        if stream == HttpStream::Headers {
            transfer.body_length as int
        } else {
            0
        }) + 1,
        TransferPhase::Closing(_) => 1,
        TransferPhase::Finished(_) => 0,
    }
}

/// What holds of a transfer of `result` whenever it is not over from the start.
spec fn on_the_way(
    result: HttpResult,
    transfer: TransferState,
    replies: Seq<Result<ReadReply, ApiError>>,
) -> bool {
    &&& transfer.request_id == result.request_id
    &&& transfer.handle == result.handle
    &&& transfer.body_length == result.body_length
    &&& match transfer.phase {
        TransferPhase::Reading { stream: HttpStream::Headers, expected, output } => {
            &&& output.len() < expected
            &&& 0 < transfer.body_length
        },
        TransferPhase::Reading { stream: HttpStream::Body, expected, output } => {
            &&& output.len() < expected
            &&& expected == transfer.body_length
            &&& ends_with_data(replies, output)
        },
        TransferPhase::Closing(Ok(body)) => {
            &&& body.len() == transfer.body_length
            &&& ends_with_data(replies, body)
        },
        _ => true,
    }
}

/// Whether the last of these answers carry exactly these bytes.
pub open spec fn ends_with_data(replies: Seq<Result<ReadReply, ApiError>>, bytes: Seq<u8>) -> bool {
    exists|first: int|
        0 <= first <= replies.len() && replies_data(#[trigger] replies.skip(first)) == bytes
}

proof fn lemma_data_grows(
    replies: Seq<Result<ReadReply, ApiError>>,
    reply: Result<ReadReply, ApiError>,
    bytes: Seq<u8>,
)
    requires
        ends_with_data(replies, bytes),
    ensures
        ends_with_data(replies.push(reply), bytes + reply_data(reply)),
{
    let first = choose|first: int|
        0 <= first <= replies.len() && replies_data(#[trigger] replies.skip(first)) == bytes;
    let longer = replies.push(reply);
    assert(longer.skip(first).drop_last() == replies.skip(first));
    assert(longer.skip(first).last() == reply);
    assert(replies_data(longer.skip(first)) == bytes + reply_data(reply));
}

proof fn lemma_data_starts(replies: Seq<Result<ReadReply, ApiError>>)
    ensures
        ends_with_data(replies, Seq::empty()),
{
    assert(replies_data(replies.skip(replies.len() as int)) == Seq::<u8>::empty());
}

/// One more answer keeps a transfer on its way and brings it nearer to its end.
proof fn lemma_advance(
    result: HttpResult,
    transfer: TransferState,
    replies: Seq<Result<ReadReply, ApiError>>,
    reply: Result<ReadReply, ApiError>,
)
    requires
        on_the_way(result, transfer, replies),
        !(transfer.phase is Finished),
    ensures
        on_the_way(result, transfer.advanced(reply), replies.push(reply)),
        answers_left(transfer.advanced(reply)) < answers_left(transfer),
        transfer.phase is Closing <==> transfer.advanced(reply).phase is Finished,
{
    lemma_data_starts(replies.push(reply));
    if let TransferPhase::Reading { stream, expected, output } = transfer.phase {
        if stream == HttpStream::Body {
            lemma_data_grows(replies, reply, output);
        }
    }
}

/// Where a transfer of an accepted response stands after any answers.
proof fn lemma_run(
    result: HttpResult,
    resource: Resource,
    replies: Seq<Result<ReadReply, ApiError>>,
)
    requires
        served(result.status, result.failure),
    ensures
        on_the_way(result, run(transfer_start(result, resource), replies), replies),
        run(transfer_start(result, resource), replies).phase is Finished
            || answers_left(run(transfer_start(result, resource), replies)) + replies.len()
            <= result.headers_length + result.body_length + 1,
        ({
            let phase = run(transfer_start(result, resource), replies).phase;
            phase is Reading || (phase is Closing && phase->Closing_0 is Ok) ==> head_fault(
                result,
                resource,
            ) is None
        }),
    decreases replies.len(),
{
    if replies.len() == 0 {
        lemma_data_starts(replies);
    } else {
        let before = replies.drop_last();
        lemma_run(result, resource, before);
        assert(before.push(replies.last()) == replies);
        let transfer = run(transfer_start(result, resource), before);
        if !(transfer.phase is Finished) {
            lemma_advance(result, transfer, before, replies.last());
        }
    }
}

/// Every transfer comes to its end: no response takes more answers than its headers and its body
/// have bytes, and one for closing it.
pub proof fn law_transfer_ends(
    result: HttpResult,
    resource: Resource,
    replies: Seq<Result<ReadReply, ApiError>>,
)
    requires
        replies.len() > result.headers_length + result.body_length,
    ensures
        run(transfer_start(result, resource), replies).phase is Finished,
{
    if served(result.status, result.failure) {
        lemma_run(result, resource, replies);
    } else {
        law_failed_request_is_over(result, resource, replies);
    }
}

/// A request that the network service could not carry out is over at once, with the service's
/// own failure, whatever comes later: there is nothing to read and nothing to close.
pub proof fn law_failed_request_is_over(
    result: HttpResult,
    resource: Resource,
    replies: Seq<Result<ReadReply, ApiError>>,
)
    requires
        !served(result.status, result.failure),
    ensures
        run(transfer_start(result, resource), replies).phase == TransferPhase::Finished(
            Err(ApiError::ServiceFailure { status: result.status, failure: result.failure }),
        ),
    decreases replies.len(),
{
    if replies.len() > 0 {
        law_failed_request_is_over(result, resource, replies.drop_last());
    }
}

/// Every response that the network service got is closed once, as the last thing before the
/// transfer is over: each message before that one reads.
pub proof fn law_response_is_closed_last(
    result: HttpResult,
    resource: Resource,
    replies: Seq<Result<ReadReply, ApiError>>,
)
    requires
        served(result.status, result.failure),
        run(transfer_start(result, resource), replies).phase is Finished,
    ensures
        exists|last: int|
            0 <= last < replies.len() && run(
                transfer_start(result, resource),
                #[trigger] replies.take(last),
            ).phase is Closing && (forall|k: int|
                #![trigger replies.take(k)]
                0 <= k < last ==> run(transfer_start(result, resource), replies.take(k)).phase is Reading)
                && (forall|k: int|
                #![trigger replies.take(k)]
                last < k <= replies.len() ==> run(
                    transfer_start(result, resource),
                    replies.take(k),
                ).phase is Finished),
    decreases replies.len(),
{
    let start = transfer_start(result, resource);
    assert(replies.len() > 0);
    let before = replies.drop_last();
    let transfer = run(start, before);
    lemma_run(result, resource, before);
    assert(replies.take(replies.len() as int) == replies);
    if transfer.phase is Finished {
        law_response_is_closed_last(result, resource, before);
        let last = choose|last: int|
            0 <= last < before.len() && run(start, #[trigger] before.take(last)).phase is Closing
                && (forall|k: int|
                #![trigger before.take(k)]
                0 <= k < last ==> run(start, before.take(k)).phase is Reading) && (forall|k: int|
                #![trigger before.take(k)]
                last < k <= before.len() ==> run(start, before.take(k)).phase is Finished);
        assert forall|k: int| 0 <= k <= before.len() implies #[trigger] replies.take(k)
            == before.take(k) by {}
        assert(replies.take(last) == before.take(last));
    } else {
        lemma_advance(result, transfer, before, replies.last());
        let last = before.len() as int;
        assert(replies.take(last) == before);
        assert forall|k: int| #![trigger replies.take(k)] 0 <= k < last implies run(
            start,
            replies.take(k),
        ).phase is Reading by {
            lemma_reading_until_closing(result, resource, before, k);
            assert(before.take(k) == replies.take(k));
        }
    }
}

proof fn lemma_reading_until_closing(
    result: HttpResult,
    resource: Resource,
    replies: Seq<Result<ReadReply, ApiError>>,
    k: int,
)
    requires
        served(result.status, result.failure),
        !(run(transfer_start(result, resource), replies).phase is Finished),
        0 <= k < replies.len(),
    ensures
        run(transfer_start(result, resource), replies.take(k)).phase is Reading,
    decreases replies.len(),
{
    let before = replies.drop_last();
    lemma_run(result, resource, before);
    let transfer = run(transfer_start(result, resource), before);
    if !(transfer.phase is Finished) {
        lemma_advance(result, transfer, before, replies.last());
    }
    assert(transfer.phase is Reading);
    if k == before.len() {
        assert(replies.take(k) == before);
    } else {
        lemma_reading_until_closing(result, resource, before, k);
        assert(replies.take(k) == before.take(k));
    }
}

/// A body that the store gets is the whole body and nothing else: the response had an accepted
/// head, the body is as long as the response announced, within the store's limit, it is what the
/// last answers in front of the closing one carried, and the response was closed without fault.
pub proof fn law_body_is_whole(
    result: HttpResult,
    resource: Resource,
    replies: Seq<Result<ReadReply, ApiError>>,
    closing: Result<ReadReply, ApiError>,
    body: Seq<u8>,
)
    requires
        run(transfer_start(result, resource), replies).phase is Closing,
        run(transfer_start(result, resource), replies.push(closing)).phase
            == TransferPhase::Finished(Ok(body)),
    ensures
        served(result.status, result.failure),
        head_fault(result, resource) is None,
        body.len() == result.body_length,
        1 <= body.len() <= api::body_limit(resource),
        ends_with_data(replies, body),
        close_result(result.request_id, result.handle, closing) is Ok,
{
    assert(replies.push(closing).drop_last() == replies);
    if !served(result.status, result.failure) {
        law_failed_request_is_over(result, resource, replies);
    }
    lemma_run(result, resource, replies);
}

/// Whether answers carry a stream of `expected` bytes without fault: each belongs to the request
/// and the response, each but the last says that more is due, the last says that it is the last,
/// each brings bytes, and they bring as many as announced. An empty stream takes no answer.
pub open spec fn carries_stream(
    request_id: u64,
    handle: u64,
    expected: nat,
    replies: Seq<Result<ReadReply, ApiError>>,
) -> bool {
    &&& replies_data(replies).len() == expected
    &&& forall|k: int|
        0 <= k < replies.len() ==> {
            &&& #[trigger] replies[k] is Ok
            &&& read_fault(replies[k]->Ok_0, request_id, handle) is None
            &&& replies[k]->Ok_0.complete == (k == replies.len() - 1)
            &&& replies[k]->Ok_0.data@.len() > 0
        }
}

/// A response with an accepted head, whose headers and body come as announced and without fault,
/// and that can be closed, ends in exactly the bytes that the answers for its body carry.
pub proof fn law_faultless_response_is_accepted(
    result: HttpResult,
    resource: Resource,
    headers: Seq<Result<ReadReply, ApiError>>,
    body: Seq<Result<ReadReply, ApiError>>,
    closing: Result<ReadReply, ApiError>,
)
    requires
        served(result.status, result.failure),
        head_fault(result, resource) is None,
        carries_stream(result.request_id, result.handle, result.headers_length as nat, headers),
        carries_stream(result.request_id, result.handle, result.body_length as nat, body),
        close_result(result.request_id, result.handle, closing) is Ok,
    ensures
        run(transfer_start(result, resource), (headers + body).push(closing)).phase
            == TransferPhase::Finished(Ok(replies_data(body))),
{
    let start = transfer_start(result, resource);
    if result.headers_length == 0 {
        if headers.len() > 0 {
            lemma_data_prefix(headers, 0);
            assert(headers[headers.len() - 1] == headers.last());
        }
        assert(run(start, headers) == start);
    } else {
        lemma_stream_runs(start, HttpStream::Headers, result.headers_length as nat, headers);
    }
    let middle = run(start, headers);
    lemma_stream_runs(middle, HttpStream::Body, result.body_length as nat, body);
    lemma_run_on(start, headers, body);
    assert((headers + body).push(closing).drop_last() == headers + body);
}

proof fn lemma_run_on(
    transfer: TransferState,
    first: Seq<Result<ReadReply, ApiError>>,
    second: Seq<Result<ReadReply, ApiError>>,
)
    ensures
        run(transfer, first + second) == run(run(transfer, first), second),
    decreases second.len(),
{
    if second.len() == 0 {
        assert(first + second == first);
    } else {
        lemma_run_on(transfer, first, second.drop_last());
        assert((first + second).drop_last() == first + second.drop_last());
    }
}

/// A stream that comes without fault is read to its end.
proof fn lemma_stream_runs(
    transfer: TransferState,
    stream: HttpStream,
    expected: nat,
    replies: Seq<Result<ReadReply, ApiError>>,
)
    requires
        0 < expected,
        transfer.phase == (TransferPhase::Reading { stream, expected, output: Seq::empty() }),
        carries_stream(transfer.request_id, transfer.handle, expected, replies),
    ensures
        run(transfer, replies) == transfer.behind(stream, Ok(replies_data(replies))),
{
    let before = replies.drop_last();
    assert(replies.len() > 0);
    lemma_reads_on(transfer, stream, expected, replies, before.len());
    assert(replies.take(before.len() as int) == before);
    assert(replies[before.len() as int] == replies.last());
}

proof fn lemma_reads_on(
    transfer: TransferState,
    stream: HttpStream,
    expected: nat,
    replies: Seq<Result<ReadReply, ApiError>>,
    k: nat,
)
    requires
        transfer.phase == (TransferPhase::Reading { stream, expected, output: Seq::empty() }),
        carries_stream(transfer.request_id, transfer.handle, expected, replies),
        k < replies.len(),
    ensures
        run(transfer, replies.take(k as int)) == transfer.at(
            TransferPhase::Reading {
                stream,
                expected,
                output: replies_data(replies.take(k as int)),
            },
        ),
    decreases k,
{
    lemma_data_prefix(replies, k);
    assert(replies[replies.len() - 1] == replies.last());
    if k > 0 {
        lemma_reads_on(transfer, stream, expected, replies, (k - 1) as nat);
        assert(replies.take(k as int).drop_last() == replies.take(k - 1));
        assert(replies.take(k as int).last() == replies[k - 1]);
    }
}

proof fn lemma_data_prefix(replies: Seq<Result<ReadReply, ApiError>>, k: nat)
    requires
        k < replies.len(),
    ensures
        replies_data(replies.take(k as int)).len() + reply_data(replies.last()).len()
            <= replies_data(replies).len(),
    decreases replies.len(),
{
    let before = replies.drop_last();
    assert(replies.take(before.len() as int) == before);
    if k < before.len() {
        lemma_data_prefix(before, k);
        assert(before.take(k as int) == replies.take(k as int));
    }
}

/// Answers are taken one after the other, and their bytes are put one behind the other.
pub proof fn law_answers_come_in_turn(
    transfer: TransferState,
    replies: Seq<Result<ReadReply, ApiError>>,
    reply: ReadReply,
)
    ensures
        run(transfer, Seq::empty()) == transfer,
        run(transfer, replies.push(Ok(reply))) == run(transfer, replies).advanced(Ok(reply)),
        replies_data(Seq::empty()) == Seq::<u8>::empty(),
        replies_data(replies.push(Ok(reply))) == replies_data(replies) + reply.data@,
{
    assert(replies.push(Ok(reply)).drop_last() == replies);
}

/// Every response that is in order is the store's: the network service did its part, the status
/// and the media type are accepted, the body is not empty and within its limit, the headers are
/// within sixteen kibibytes, both come in answers that belong to the response, none empty, the
/// last of each saying that it is the last, and the response can be closed. It then ends in the
/// bytes of its body, whatever its lengths are.
pub proof fn law_sound_response_is_accepted(
    result: HttpResult,
    resource: Resource,
    headers: Seq<Result<ReadReply, ApiError>>,
    body: Seq<Result<ReadReply, ApiError>>,
    closing: ReadReply,
)
    requires
        result.status == 0,
        result.failure is NoFailure,
        api::accepts_status(resource, result.status_code),
        api::accepts_media_type(resource, api::media_type_of(result.content_type@)),
        1 <= result.body_length <= api::body_limit(resource),
        result.headers_length <= 0x4000,
        replies_data(headers).len() == result.headers_length,
        forall|k: int|
            0 <= k < headers.len() ==> {
                &&& (#[trigger] headers[k]) matches Ok(reply)
                &&& reply.request_id == result.request_id
                &&& reply.handle == result.handle
                &&& reply.status == 0
                &&& reply.failure is NoFailure
                &&& reply.data@.len() > 0
                &&& reply.complete == (k == headers.len() - 1)
            },
        replies_data(body).len() == result.body_length,
        forall|k: int|
            0 <= k < body.len() ==> {
                &&& (#[trigger] body[k]) matches Ok(reply)
                &&& reply.request_id == result.request_id
                &&& reply.handle == result.handle
                &&& reply.status == 0
                &&& reply.failure is NoFailure
                &&& reply.data@.len() > 0
                &&& reply.complete == (k == body.len() - 1)
            },
        closing.request_id == result.request_id,
        closing.handle == result.handle,
        closing.status == 0,
        closing.failure is NoFailure,
        closing.complete,
        closing.data@.len() == 0,
    ensures
        run(transfer_start(result, resource), (headers + body).push(Ok(closing))).phase
            == TransferPhase::Finished(Ok(replies_data(body))),
{
    law_faultless_response_is_accepted(result, resource, headers, body, Ok(closing));
}

/// A response is refused for its head exactly where that is at fault: for the status, else for the
/// media type, else for a body that is empty or too large or headers of more than sixteen
/// kibibytes. It is then closed unread; any other is read, its headers first where it has any.
pub proof fn law_heads_are_judged(result: HttpResult, resource: Resource)
    requires
        result.status == 0,
        result.failure is NoFailure,
    ensures
        ({
            let start = transfer_start(result, resource);
            let status = api::accepts_status(resource, result.status_code);
            let media = api::accepts_media_type(
                resource,
                api::media_type_of(result.content_type@),
            );
            let fits = 1 <= result.body_length <= api::body_limit(resource) && result.headers_length
                <= 0x4000;
            &&& start.request_id == result.request_id
            &&& start.handle == result.handle
            &&& !status ==> start.phase == TransferPhase::Closing(
                Err(ApiError::HttpStatus(result.status_code)),
            )
            &&& status && !media ==> start.phase == TransferPhase::Closing(
                Err(ApiError::InvalidContentType),
            )
            &&& status && media && !fits ==> start.phase == TransferPhase::Closing(
                Err(ApiError::ResponseTooLarge),
            )
            &&& status && media && fits && result.headers_length > 0 ==> start.phase == (
            TransferPhase::Reading {
                stream: HttpStream::Headers,
                expected: result.headers_length as nat,
                output: Seq::empty(),
            })
            &&& status && media && fits && result.headers_length == 0 ==> start.phase == (
            TransferPhase::Reading {
                stream: HttpStream::Body,
                expected: result.body_length as nat,
                output: Seq::empty(),
            })
            &&& start.body_length == result.body_length
        }),
{
}

/// A response that could not be got, for a status or for a failure of the network service, is
/// never read or closed.
pub proof fn law_unserved_response_is_not_touched(result: HttpResult, resource: Resource)
    requires
        result.status != 0 || result.failure is Failed,
    ensures
        transfer_start(result, resource).phase == TransferPhase::Finished(
            Err(ApiError::ServiceFailure { status: result.status, failure: result.failure }),
        ),
{
}

/// An answer that is at fault ends the reading with its error: an answer that did not come with
/// the reason for that, then one for another request, one for another response, one that tells of
/// a failure, and one that neither brings anything nor is the last.
pub proof fn law_faulty_answer_ends_the_reading(
    transfer: TransferState,
    reply: Result<ReadReply, ApiError>,
)
    requires
        transfer.phase is Reading,
    ensures
        ({
            let next = transfer.advanced(reply).phase;
            match reply {
                Err(error) => next == TransferPhase::Closing(Err(error)),
                Ok(reply) => {
                    let same_request = reply.request_id == transfer.request_id;
                    let same_response = reply.handle == transfer.handle;
                    let well = reply.status == 0 && reply.failure is NoFailure;
                    &&& !same_request ==> next == TransferPhase::Closing(
                        Err(ApiError::RequestIdMismatch),
                    )
                    &&& same_request && !same_response ==> next == TransferPhase::Closing(
                        Err(ApiError::HandleMismatch),
                    )
                    &&& same_request && same_response && !well ==> next == TransferPhase::Closing(
                        Err(
                            ApiError::ServiceFailure {
                                status: reply.status,
                                failure: reply.failure,
                            },
                        ),
                    )
                    &&& same_request && same_response && well && reply.data@.len() == 0
                        && !reply.complete ==> next == TransferPhase::Closing(
                        Err(ApiError::Truncated),
                    )
                },
            }
        }),
{
}

/// A faultless answer brings the stream on by its bytes: short of its length and with more to come
/// the reading goes on; at its length and with nothing to come the stream is whole, and the body
/// follows the headers; anything else is a response that ended unexpectedly.
pub proof fn law_faultless_answer_brings_its_bytes(transfer: TransferState, reply: ReadReply)
    requires
        transfer.phase is Reading,
        reply.request_id == transfer.request_id,
        reply.handle == transfer.handle,
        reply.status == 0,
        reply.failure is NoFailure,
        reply.data@.len() > 0 || reply.complete,
    ensures
        ({
            let stream = transfer.phase->stream;
            let expected = transfer.phase->expected;
            let output = transfer.phase->output + reply.data@;
            let next = transfer.advanced(Ok(reply));
            &&& next.request_id == transfer.request_id
            &&& next.handle == transfer.handle
            &&& next.body_length == transfer.body_length
            &&& output.len() < expected && !reply.complete ==> next.phase == (
            TransferPhase::Reading { stream, expected, output })
            &&& output.len() == expected && reply.complete ==> next.phase == (match stream {
                HttpStream::Headers => TransferPhase::Reading {
                    stream: HttpStream::Body,
                    expected: transfer.body_length,
                    output: Seq::empty(),
                },
                HttpStream::Body => TransferPhase::Closing(Ok(output)),
            })
            &&& (output.len() < expected) == reply.complete || output.len() > expected
                ==> next.phase == TransferPhase::Closing(Err(ApiError::Truncated))
        }),
{
}

/// Closing ends the transfer whatever is answered. An earlier error stays; a body that came whole
/// is the result where the response is closed, and else the first of these is: why no answer came,
/// an answer for another request, one that is not the answer to closing this response, or a
/// failure.
pub proof fn law_closing_decides(transfer: TransferState, reply: Result<ReadReply, ApiError>)
    requires
        transfer.phase is Closing,
    ensures
        ({
            let outcome = transfer.phase->Closing_0;
            let next = transfer.advanced(reply).phase;
            &&& outcome matches Err(error) ==> next == TransferPhase::Finished(Err(error))
            &&& outcome matches Ok(body) ==> match reply {
                Err(error) => next == TransferPhase::Finished(Err(error)),
                Ok(reply) => {
                    let same_request = reply.request_id == transfer.request_id;
                    let closed = reply.handle == transfer.handle && reply.complete
                        && reply.data@.len() == 0;
                    let well = reply.status == 0 && reply.failure is NoFailure;
                    &&& !same_request ==> next == TransferPhase::Finished(
                        Err(ApiError::RequestIdMismatch),
                    )
                    &&& same_request && !closed ==> next == TransferPhase::Finished(
                        Err(ApiError::HandleMismatch),
                    )
                    &&& same_request && closed && !well ==> next == TransferPhase::Finished(
                        Err(
                            ApiError::ServiceFailure {
                                status: reply.status,
                                failure: reply.failure,
                            },
                        ),
                    )
                    &&& same_request && closed && well ==> next == TransferPhase::Finished(Ok(body))
                },
            }
        }),
{
}

/// What is over stays as it is.
pub proof fn law_finished_transfer_stays(
    transfer: TransferState,
    reply: Result<ReadReply, ApiError>,
)
    requires
        transfer.phase is Finished,
    ensures
        transfer.advanced(reply) == transfer,
{
}

/// A result of bytes is those bytes or its error, and a call that the system refused tells the
/// system's error number, zero where there is none.
pub proof fn law_results_are_told_as_they_are(bytes: Vec<u8>, error: ApiError, errno: u64)
    ensures
        Progress::Open(bytes)@ == StreamState::Open(bytes@),
        Progress::Over(Ok(bytes))@ == StreamState::Over(Ok(bytes@)),
        Progress::Over(Err(error))@ == StreamState::Over(Err(error)),
        bytes_of(Ok(bytes)) == Ok::<Seq<u8>, ApiError>(bytes@),
        bytes_of(Err(error)) == Err::<Seq<u8>, ApiError>(error),
        unavailable(Some(errno)) == ApiError::ServiceUnavailable(errno),
        unavailable(None) == ApiError::ServiceUnavailable(0),
{
}

/// A read is of the stream and the response that are being read, and for all that is left or for
/// as much as a message carries, whichever is less. Nothing is read any more once the outcome is
/// known: the response is closed, and then nothing is left to do.
pub proof fn law_reads_are_bounded(transfer: TransferState, chunk_limit: usize)
    ensures
        match transfer.phase {
            TransferPhase::Reading { stream, expected, output } => {
                let left = expected - output.len();
                0 <= left <= usize::MAX ==> {
                    &&& transfer.due(chunk_limit) is Read
                    &&& transfer.due(chunk_limit)->Read_request_id == transfer.request_id
                    &&& transfer.due(chunk_limit)->Read_handle == transfer.handle
                    &&& transfer.due(chunk_limit)->stream == stream
                    &&& left <= chunk_limit ==> transfer.due(chunk_limit)->maximum == left
                    &&& left > chunk_limit ==> transfer.due(chunk_limit)->maximum == chunk_limit
                }
            },
            TransferPhase::Closing(_) => transfer.due(chunk_limit) == (Action::Close {
                request_id: transfer.request_id,
                handle: transfer.handle,
            }),
            TransferPhase::Finished(_) => transfer.due(chunk_limit) is Finish,
        },
{
}

/// The result of a call is two halves, and the lower is the length of the reply, whatever the
/// upper is. It is a length where the reply has room for it.
pub proof fn law_lower_half_is_the_length(upper: u32, lower: u32, room: usize, errno: Option<u64>)
    ensures
        ({
            let value = (upper * 0x1_0000_0000 + lower) as u64;
            &&& lower <= room ==> reply_length(Ok(value), room) == Ok::<usize, ApiError>(
                lower as usize,
            )
            &&& lower > room ==> reply_length(Ok(value), room) == Err::<usize, ApiError>(
                ApiError::Protocol,
            )
            &&& reply_length(Err(errno), room) == Err::<usize, ApiError>(unavailable(errno))
        }),
{
}

/// Every service but the one with number zero is one.
pub proof fn law_service_zero_is_none(number: u64, not_found: u64, errno: Option<u64>)
    ensures
        number != 0 ==> found_service(Ok(number), not_found) == Ok::<u64, ApiError>(number),
        found_service(Ok(0), not_found) == Err::<u64, ApiError>(
            ApiError::ServiceUnavailable(not_found),
        ),
        found_service(Err(errno), not_found) == Err::<u64, ApiError>(unavailable(errno)),
{
}

} // verus!
