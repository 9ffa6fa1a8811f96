//! The requests that the store makes of its server, and the answers that it accepts.

use vstd::prelude::*;
use vstd::utf8::*;

use crate::text;
use crate::transfer;
use crate::transfer::{HttpResult, Transfer};
use crate::url;

verus! {

/// What the network service says of a request that it could not carry out.
#[derive(Debug)]
pub enum HttpFailure {
    /// The service did its part.
    NoFailure,
    /// The service failed in the way that the name says.
    Failed(String),
}

impl Clone for HttpFailure {
    fn clone(&self) -> (copy: Self)
        ensures
            copy == *self,
    {
        match self {
            HttpFailure::NoFailure => HttpFailure::NoFailure,
            HttpFailure::Failed(name) => HttpFailure::Failed(name.clone()),
        }
    }
}

/// Why a request to the store's server has no usable answer.
#[derive(Debug)]
pub enum ApiError {
    /// The network service cannot be reached; the system's error number.
    ServiceUnavailable(u64),
    /// A message of the network service cannot be read, or one for it cannot be written.
    Protocol,
    /// The answer belongs to another request.
    RequestIdMismatch,
    /// The answer belongs to another response.
    HandleMismatch,
    /// The network service reports a failure.
    ServiceFailure { status: i32, failure: HttpFailure },
    /// The response is empty, or larger than the store accepts.
    ResponseTooLarge,
    /// The response ended before all of it had come, or went past its announced length.
    Truncated,
    /// The server answered with a status that the store does not accept.
    HttpStatus(u16),
    /// The server answered with a kind of content that the store does not accept.
    InvalidContentType,
    /// The body of the answer is not the JSON that the store expects.
    InvalidJson,
}

/// The name under which a failure is shown.
pub open spec fn failure_name(failure: HttpFailure) -> Seq<char> {
    match failure {
        HttpFailure::NoFailure => "None"@,
        HttpFailure::Failed(name) => name@,
    }
}

/// The sentence that tells a user of an error.
pub open spec fn error_sentence(error: ApiError) -> Seq<char> {
    match error {
        ApiError::ServiceUnavailable(errno) => {
            "network service unavailable (errno "@ + text::decimal(errno as nat) + ")"@
        },
        ApiError::Protocol => "invalid network service response"@,
        ApiError::RequestIdMismatch => "network response did not match request"@,
        ApiError::HandleMismatch => "network response handle did not match"@,
        ApiError::ServiceFailure { status, failure } => {
            "network request failed ("@ + failure_name(failure) + ", status "@
                + text::signed_decimal(status as int) + ")"@
        },
        ApiError::ResponseTooLarge => "store response is too large"@,
        ApiError::Truncated => "store response ended unexpectedly"@,
        ApiError::HttpStatus(status) => {
            "App Store API returned HTTP "@ + text::decimal(status as nat)
        },
        ApiError::InvalidContentType => "App Store API returned an unsupported content type"@,
        ApiError::InvalidJson => "App Store API returned invalid catalog data"@,
    }
}

impl ApiError {
    /// The sentence that tells a user of the error.
    pub fn message(&self) -> (sentence: String)
        ensures
            sentence@ == error_sentence(*self),
    {
        match self {
            ApiError::ServiceUnavailable(errno) => {
                let mut sentence = "network service unavailable (errno ".to_owned();
                text::push_decimal(&mut sentence, *errno);
                text::push_text(&mut sentence, ")");
                sentence
            },
            ApiError::Protocol => "invalid network service response".to_owned(),
            ApiError::RequestIdMismatch => "network response did not match request".to_owned(),
            ApiError::HandleMismatch => "network response handle did not match".to_owned(),
            ApiError::ServiceFailure { status, failure } => {
                let mut sentence = "network request failed (".to_owned();
                match failure {
                    HttpFailure::NoFailure => text::push_text(&mut sentence, "None"),
                    HttpFailure::Failed(name) => text::push_text(&mut sentence, name.as_str()),
                }
                text::push_text(&mut sentence, ", status ");
                text::push_signed_decimal(&mut sentence, *status);
                text::push_text(&mut sentence, ")");
                sentence
            },
            ApiError::ResponseTooLarge => "store response is too large".to_owned(),
            ApiError::Truncated => "store response ended unexpectedly".to_owned(),
            ApiError::HttpStatus(status) => {
                let mut sentence = "App Store API returned HTTP ".to_owned();
                text::push_decimal(&mut sentence, *status as u64);
                sentence
            },
            ApiError::InvalidContentType => {
                "App Store API returned an unsupported content type".to_owned()
            },
            ApiError::InvalidJson => "App Store API returned invalid catalog data".to_owned(),
        }
    }
}

/// The largest storefront that the store accepts.
pub const MAX_STOREFRONT_BYTES: usize = 4 * 1024 * 1024;

/// The largest icon that the store accepts.
pub const MAX_ICON_BYTES: usize = 2 * 1024 * 1024;

/// The largest description of a release that the store accepts.
pub const MAX_RELEASE_RESPONSE_BYTES: usize = 1024 * 1024;

/// The largest part of a package that the store accepts at once.
pub const MAX_PACKAGE_CHUNK_BYTES: usize = 2 * 1024 * 1024;

/// The kinds of answers that the store asks its server for.
#[derive(Clone, Copy, Debug, PartialEq, Eq, Structural)]
pub enum Resource {
    Storefront,
    Icon,
    Release,
    Package,
}

/// The largest body that the store accepts for a kind of answer.
pub open spec fn body_limit(resource: Resource) -> nat {
    match resource {
        Resource::Storefront => MAX_STOREFRONT_BYTES as nat,
        Resource::Icon => MAX_ICON_BYTES as nat,
        Resource::Release => MAX_RELEASE_RESPONSE_BYTES as nat,
        Resource::Package => MAX_PACKAGE_CHUNK_BYTES as nat,
    }
}

/// Whether the store accepts an HTTP status for a kind of answer. Only a package may come in
/// parts.
pub open spec fn accepts_status(resource: Resource, status: u16) -> bool {
    status == 200 || (resource == Resource::Package && status == 206)
}

/// The media types that the store accepts for a kind of answer.
pub open spec fn media_types(resource: Resource) -> Seq<Seq<char>> {
    match resource {
        Resource::Storefront | Resource::Release => seq!["application/json"@],
        Resource::Icon => seq!["image/png"@, "image/jpeg"@, "image/webp"@],
        Resource::Package => seq!["application/octet-stream"@, "application/x-mpkg"@],
    }
}

/// Whether the store accepts a media type for a kind of answer. The case of letters does not
/// matter.
pub open spec fn accepts_media_type(resource: Resource, media_type: Seq<char>) -> bool {
    exists|i: int|
        0 <= i < media_types(resource).len() && text::lowered(#[trigger] media_types(resource)[i])
            == text::lowered(media_type)
}

/// The media type in a content type: what stands in front of the parameters, without the white
/// space around it.
pub open spec fn media_type_of(content_type: Seq<char>) -> Seq<char> {
    text::trimmed(text::in_front_of(content_type, ';'))
}

impl Resource {
    /// The largest body that the store accepts.
    pub fn maximum_body_bytes(self) -> (limit: usize)
        ensures
            limit == body_limit(self),
    {
        match self {
            Resource::Storefront => MAX_STOREFRONT_BYTES,
            Resource::Icon => MAX_ICON_BYTES,
            Resource::Release => MAX_RELEASE_RESPONSE_BYTES,
            Resource::Package => MAX_PACKAGE_CHUNK_BYTES,
        }
    }

    /// Whether the store accepts an HTTP status.
    pub fn valid_status(self, status: u16) -> (valid: bool)
        ensures
            valid == accepts_status(self, status),
    {
        match self {
            Resource::Package => status == 200 || status == 206,
            _ => status == 200,
        }
    }

    /// Whether the store accepts a media type.
    pub fn valid_content_type(self, media_type: &str) -> (valid: bool)
        ensures
            valid == accepts_media_type(self, media_type@),
    {
        let ghost types = media_types(self);
        match self {
            Resource::Storefront | Resource::Release => {
                let valid = text::same_ignoring_case("application/json", media_type);
                assert(types[0] == "application/json"@);
                valid
            },
            Resource::Icon => {
                let valid = text::same_ignoring_case("image/png", media_type)
                    || text::same_ignoring_case("image/jpeg", media_type)
                    || text::same_ignoring_case("image/webp", media_type);
                assert(types[0] == "image/png"@);
                assert(types[1] == "image/jpeg"@);
                assert(types[2] == "image/webp"@);
                valid
            },
            Resource::Package => {
                let valid = text::same_ignoring_case("application/octet-stream", media_type)
                    || text::same_ignoring_case("application/x-mpkg", media_type);
                assert(types[0] == "application/octet-stream"@);
                assert(types[1] == "application/x-mpkg"@);
                valid
            },
        }
    }
}

/// How long the store waits for the storefront or for a release, in milliseconds.
pub const REQUEST_TIMEOUT_MS: u32 = 15_000;

/// How long the store waits for an icon, in milliseconds.
pub const ICON_REQUEST_TIMEOUT_MS: u32 = 5_000;

/// How long the store waits for a part of a package, in milliseconds.
pub const PACKAGE_REQUEST_TIMEOUT_MS: u32 = 120_000;

/// Data that was asked for.
#[derive(Debug)]
pub enum DataRequest<T> {
    /// It is still to come.
    Pending,
    /// It is here.
    Ready(T),
}

/// A request that the network service is to carry out.
#[derive(Debug)]
pub struct HttpGet {
    pub request_id: u64,
    pub url: String,
    pub timeout_ms: u32,
    /// The value of the range header, empty for the whole.
    pub range: String,
}

impl HttpGet {
    /// Whether this is the request with these properties.
    pub open spec fn is(
        self,
        request_id: u64,
        url: Seq<char>,
        timeout_ms: u32,
        range: Seq<char>,
    ) -> bool {
        &&& self.request_id == request_id
        &&& self.url@ == url
        &&& self.timeout_ms == timeout_ms
        &&& self.range@ == range
    }

    /// The room that the request takes as a message.
    pub fn message_room(&self) -> (room: usize)
        requires
            encode_utf8(self.url@).len() + 48 <= usize::MAX,
        ensures
            room == 48 + encode_utf8(self.url@).len(),
    {
        48 + self.url.as_str().len()
    }
}

/// A request for `url`.
pub fn start_async_get(request_id: u64, url: String, timeout_ms: u32, range: String) -> (request:
    HttpGet)
    ensures
        request.is(request_id, url@, timeout_ms, range@),
{
    HttpGet { request_id, url, timeout_ms, range }
}

/// The length of a request as a message, where it could be written as one.
pub fn encoded_request(length: Option<usize>) -> (encoded: Result<usize, ApiError>)
    ensures
        encoded == match length {
            Some(length) => Ok::<usize, ApiError>(length),
            None => Err(ApiError::Protocol),
        },
{
    match length {
        Some(length) => Ok(length),
        None => Err(ApiError::Protocol),
    }
}

/// A request after it was handed to the network service: what it asks for is still to come.
pub fn sent_request<T>(sent: Result<(), Option<u64>>) -> (request: Result<DataRequest<T>, ApiError>)
    ensures
        request == match sent {
            Ok(_) => Ok::<DataRequest<T>, ApiError>(DataRequest::Pending),
            Err(errno) => Err(transfer::unavailable(errno)),
        },
{
    match sent {
        Ok(_) => Ok(DataRequest::Pending),
        Err(errno) => Err(transfer::service_unavailable(errno)),
    }
}

/// The request for the storefront of the server at `base_url`.
pub fn start_storefront_request(request_id: u64, base_url: &str) -> (request: HttpGet)
    ensures
        request.is(request_id, url::storefront_address(base_url@), REQUEST_TIMEOUT_MS, Seq::empty()),
        request.timeout_ms == 15_000,
{
    start_async_get(request_id, url::storefront_url(base_url), REQUEST_TIMEOUT_MS, String::new())
}

/// Whether an address may be used for an icon: nothing but HTTPS will do.
pub open spec fn is_https(url: Seq<char>) -> bool {
    "https://"@.is_prefix_of(url)
}

/// The request for the icon at `url`.
pub fn start_icon_request(request_id: u64, url: &str) -> (request: Result<HttpGet, ApiError>)
    ensures
        match request {
            Ok(request) => is_https(url@) && request.is(
                request_id,
                url@,
                ICON_REQUEST_TIMEOUT_MS,
                Seq::empty(),
            ),
            Err(error) => !is_https(url@) && error == ApiError::Protocol,
        },
        request matches Ok(get) ==> get.timeout_ms == 5_000,
{
    if !text::starts_with(url, "https://") {
        return Err(ApiError::Protocol);
    }
    Ok(start_async_get(request_id, url.to_owned(), ICON_REQUEST_TIMEOUT_MS, String::new()))
}

/// The request for the releases of an app.
pub fn start_release_request(request_id: u64, base_url: &str, bundle_id: &str) -> (request: HttpGet)
    ensures
        request.is(
            request_id,
            url::release_address(base_url@, bundle_id@),
            REQUEST_TIMEOUT_MS,
            Seq::empty(),
        ),
        request.timeout_ms == 15_000,
{
    start_async_get(
        request_id,
        url::release_url(base_url, bundle_id),
        REQUEST_TIMEOUT_MS,
        String::new(),
    )
}

/// Whether a part of a package has a last byte with a number that the machine can hold.
pub open spec fn has_range_end(offset: usize, length: usize) -> bool {
    1 <= offset + length <= usize::MAX
}

/// The first and the last byte of a part of a package, joined by a hyphen.
pub open spec fn byte_range(offset: usize, length: usize) -> Seq<char> {
    text::decimal(offset as nat) + "-"@ + text::decimal((offset + length - 1) as nat)
}

/// The value of the range header that asks for a part of a package.
pub open spec fn range_header(offset: usize, length: usize) -> Seq<char> {
    "bytes="@ + byte_range(offset, length)
}

/// The first and the last byte of a part of a package, joined by a hyphen.
pub fn range_text(offset: usize, length: usize) -> (range: Option<String>)
    ensures
        match range {
            Some(range) => has_range_end(offset, length) && range@ == byte_range(offset, length),
            None => !has_range_end(offset, length),
        },
{
    let end: usize = match offset.checked_add(length) {
        Some(sum) => match sum.checked_sub(1) {
            Some(end) => end,
            None => {
                return None;
            },
        },
        None => {
            return None;
        },
    };
    let mut range = String::new();
    text::push_decimal(&mut range, offset as u64);
    text::push_text(&mut range, "-");
    text::push_decimal(&mut range, end as u64);
    Some(range)
}

/// The request for a part of a package.
pub fn start_package_request(
    request_id: u64,
    base_url: &str,
    bundle_id: &str,
    version: &str,
    offset: usize,
    length: usize,
) -> (request: Result<HttpGet, ApiError>)
    ensures
        match request {
            Ok(request) => has_range_end(offset, length) && request.is(
                request_id,
                url::package_address(base_url@, bundle_id@, version@),
                PACKAGE_REQUEST_TIMEOUT_MS,
                "bytes="@ + byte_range(offset, length),
            ),
            Err(error) => !has_range_end(offset, length) && error == ApiError::Protocol,
        },
        request matches Ok(get) ==> get.timeout_ms == 120_000 && get.range@ == range_header(
            offset,
            length,
        ),
{
    let url = url::package_url(base_url, bundle_id, version);
    match range_text(offset, length) {
        Some(range) => Ok(
            start_async_get(
                request_id,
                url,
                PACKAGE_REQUEST_TIMEOUT_MS,
                text::joined("bytes=", range.as_str()),
            ),
        ),
        None => Err(ApiError::Protocol),
    }
}

/// Whether `fetch` is what an announcement starts: the fetching of the announced answer, with the
/// request that it belongs to. A message that announces nothing starts nothing.
pub open spec fn is_fetch(
    announced: Option<HttpResult>,
    resource: Resource,
    fetch: Option<(u64, Transfer)>,
) -> bool {
    match (announced, fetch) {
        (Some(result), Some((request_id, transfer))) => {
            &&& request_id == result.request_id
            &&& transfer@ == transfer::transfer_start(result, resource)
        },
        (None, None) => true,
        _ => false,
    }
}

/// Starts to fetch an answer that is announced.
fn fetch(announced: Option<HttpResult>, resource: Resource) -> (fetch: Option<(u64, Transfer)>)
    ensures
        is_fetch(announced, resource, fetch),
{
    match announced {
        Some(result) => {
            let request_id = result.request_id;
            Some((request_id, transfer::finish_request(result, resource)))
        },
        None => None,
    }
}

/// Starts to fetch a storefront that is announced.
pub fn finish_storefront_request(announced: Option<HttpResult>) -> (fetch: Option<(u64, Transfer)>)
    ensures
        is_fetch(announced, Resource::Storefront, fetch),
{
    self::fetch(announced, Resource::Storefront)
}

/// Starts to fetch an icon that is announced.
pub fn finish_icon_request(announced: Option<HttpResult>) -> (fetch: Option<(u64, Transfer)>)
    ensures
        is_fetch(announced, Resource::Icon, fetch),
{
    self::fetch(announced, Resource::Icon)
}

/// Starts to fetch a description of a release that is announced.
pub fn finish_release_request(announced: Option<HttpResult>) -> (fetch: Option<(u64, Transfer)>)
    ensures
        is_fetch(announced, Resource::Release, fetch),
{
    self::fetch(announced, Resource::Release)
}

/// Starts to fetch a part of a package that is announced.
pub fn finish_package_request(announced: Option<HttpResult>) -> (fetch: Option<(u64, Transfer)>)
    ensures
        is_fetch(announced, Resource::Package, fetch),
{
    self::fetch(announced, Resource::Package)
}

/// The request that an announced answer belongs to.
pub fn response_request_id(announced: Option<&HttpResult>) -> (request_id: Option<u64>)
    ensures
        request_id == match announced {
            Some(result) => Some(result.request_id),
            None => None,
        },
{
    match announced {
        Some(result) => Some(result.request_id),
        None => None,
    }
}

/// What a fetched answer says, where it is JSON: `parsed` is what its bytes were read as, if they
/// could be.
pub fn decoded_reply<T>(fetched: Result<Vec<u8>, ApiError>, parsed: Option<T>) -> (reply: Result<
    T,
    ApiError,
>)
    ensures
        reply == match fetched {
            Err(error) => Err::<T, ApiError>(error),
            Ok(_) => match parsed {
                Some(value) => Ok(value),
                None => Err(ApiError::InvalidJson),
            },
        },
{
    match fetched {
        Err(error) => Err(error),
        Ok(_) => match parsed {
            Some(value) => Ok(value),
            None => Err(ApiError::InvalidJson),
        },
    }
}

/// A number in a sentence is the whole number in decimal, and can be read back.
pub proof fn law_sentences_carry_their_numbers(errno: u64, code: u16)
    ensures
        error_sentence(ApiError::ServiceUnavailable(errno))
            == "network service unavailable (errno "@ + text::decimal(errno as nat) + ")"@,
        error_sentence(ApiError::HttpStatus(code)) == "App Store API returned HTTP "@
            + text::decimal(code as nat),
        text::digits_value(text::decimal(errno as nat)) == errno,
        text::digits_value(text::decimal(code as nat)) == code,
{
    text::law_decimal_is_the_number(errno as nat);
    text::law_decimal_is_the_number(code as nat);
}

/// A failure of the network service is told with its name and its status, negative ones with a
/// minus sign.
pub proof fn law_failures_are_named(status: i32, name: String)
    ensures
        ({
            let number = if status < 0 {
                seq!['-'] + text::decimal((-(status as int)) as nat)
            } else {
                text::decimal(status as nat)
            };
            &&& error_sentence(
                ApiError::ServiceFailure { status, failure: HttpFailure::Failed(name) },
            ) == "network request failed ("@ + name@ + ", status "@ + number + ")"@
            &&& error_sentence(
                ApiError::ServiceFailure { status, failure: HttpFailure::NoFailure },
            ) == "network request failed ("@ + "None"@ + ", status "@ + number + ")"@
        }),
{
}

/// The errors without a number have a sentence each.
pub proof fn law_plain_errors_have_their_sentences(error: ApiError)
    ensures
        error is Protocol ==> error_sentence(error) == "invalid network service response"@,
        error is RequestIdMismatch ==> error_sentence(error)
            == "network response did not match request"@,
        error is HandleMismatch ==> error_sentence(error)
            == "network response handle did not match"@,
        error is ResponseTooLarge ==> error_sentence(error) == "store response is too large"@,
        error is Truncated ==> error_sentence(error) == "store response ended unexpectedly"@,
        error is InvalidContentType ==> error_sentence(error)
            == "App Store API returned an unsupported content type"@,
        error is InvalidJson ==> error_sentence(error)
            == "App Store API returned invalid catalog data"@,
{
}

/// The store accepts bodies up to four mebibytes for a storefront, two for an icon and for a part
/// of a package, and one for a release.
pub proof fn law_body_limits(resource: Resource)
    ensures
        body_limit(resource) == (match resource {
            Resource::Storefront => 4 * 0x10_0000nat,
            Resource::Icon => 2 * 0x10_0000nat,
            Resource::Release => 0x10_0000nat,
            Resource::Package => 2 * 0x10_0000nat,
        }),
{
}

/// A success is status 200; only a package may also come as partial content, and no other status
/// is accepted for anything.
pub proof fn law_accepted_statuses(resource: Resource, status: u16)
    ensures
        status == 200 ==> accepts_status(resource, status),
        status == 206 ==> (accepts_status(resource, status) <==> resource is Package),
        status != 200 && status != 206 ==> !accepts_status(resource, status),
{
}

/// The media types that are accepted, each in any case of its letters, and no others.
pub proof fn law_accepted_media_types(media_type: Seq<char>)
    ensures
        accepts_media_type(Resource::Storefront, media_type) <==> text::lowered(media_type)
            == "application/json"@,
        accepts_media_type(Resource::Release, media_type) <==> text::lowered(media_type)
            == "application/json"@,
        accepts_media_type(Resource::Icon, media_type) <==> text::lowered(media_type)
            == "image/png"@ || text::lowered(media_type) == "image/jpeg"@ || text::lowered(
            media_type,
        ) == "image/webp"@,
        accepts_media_type(Resource::Package, media_type) <==> text::lowered(media_type)
            == "application/octet-stream"@ || text::lowered(media_type) == "application/x-mpkg"@,
{
    reveal_strlit("application/json");
    reveal_strlit("image/png");
    reveal_strlit("image/jpeg");
    reveal_strlit("image/webp");
    reveal_strlit("application/octet-stream");
    reveal_strlit("application/x-mpkg");
    assert(text::lowered("application/json"@) =~= "application/json"@);
    assert(text::lowered("image/png"@) =~= "image/png"@);
    assert(text::lowered("image/jpeg"@) =~= "image/jpeg"@);
    assert(text::lowered("image/webp"@) =~= "image/webp"@);
    assert(text::lowered("application/octet-stream"@) =~= "application/octet-stream"@);
    assert(text::lowered("application/x-mpkg"@) =~= "application/x-mpkg"@);
    assert(media_types(Resource::Storefront)[0] == "application/json"@);
    assert(media_types(Resource::Release)[0] == "application/json"@);
    assert(media_types(Resource::Icon)[0] == "image/png"@);
    assert(media_types(Resource::Icon)[1] == "image/jpeg"@);
    assert(media_types(Resource::Icon)[2] == "image/webp"@);
    assert(media_types(Resource::Package)[0] == "application/octet-stream"@);
    assert(media_types(Resource::Package)[1] == "application/x-mpkg"@);
}

/// Parameters of a content type, and white space around its media type, make no difference.
pub proof fn law_parameters_are_ignored(
    before: Seq<char>,
    media_type: Seq<char>,
    behind: Seq<char>,
    parameters: Seq<char>,
)
    requires
        forall|k: int| 0 <= k < before.len() ==> text::white_space(#[trigger] before[k]),
        forall|k: int| 0 <= k < behind.len() ==> text::white_space(#[trigger] behind[k]),
        media_type.len() > 0,
        !text::white_space(media_type[0]),
        !text::white_space(media_type.last()),
        !media_type.contains(';'),
    ensures
        media_type_of(before + media_type + behind) == media_type,
        media_type_of(before + media_type + behind + seq![';'] + parameters) == media_type,
{
    let front = before + media_type + behind;
    let whole = front + seq![';'] + parameters;
    assert(!front.contains(';')) by {
        assert forall|k: int| 0 <= k < front.len() implies front[k] != ';' by {
            if k < before.len() {
                assert(front[k] == before[k]);
            } else if k < before.len() + media_type.len() {
                assert(front[k] == media_type[k - before.len()]);
                assert(media_type.contains(front[k]));
            } else {
                assert(front[k] == behind[k - before.len() - media_type.len()]);
            }
        }
    }
    text::law_front_ends_at_the_character(front, ';');
    text::law_front_ends_at_the_character(whole, ';');
    let a = text::in_front_of(front, ';');
    let b = text::in_front_of(whole, ';');
    if a.len() < front.len() {
        assert(front.contains(front[a.len() as int]));
    }
    assert(a =~= front);
    assert(whole[front.len() as int] == ';');
    if b.len() > front.len() {
        assert(b[front.len() as int] == ';');
        assert(b.contains(';'));
    }
    if b.len() < front.len() {
        assert(whole[b.len() as int] == front[b.len() as int]);
        assert(front.contains(front[b.len() as int]));
    }
    assert(b =~= front);
    text::law_margins_are_trimmed(before, media_type, behind);
}

/// A content type with nothing but white space in front of its parameters names no media type,
/// and one that names none is accepted for nothing.
pub proof fn law_missing_media_type_is_refused(blank: Seq<char>, resource: Resource)
    requires
        forall|k: int| 0 <= k < blank.len() ==> text::white_space(#[trigger] blank[k]),
    ensures
        media_type_of(blank).len() == 0,
        forall|parameters: Seq<char>|
            media_type_of(#[trigger] (blank + seq![';'] + parameters)).len() == 0,
        !accepts_media_type(resource, Seq::empty()),
{
    assert(!blank.contains(';'));
    text::law_front_ends_at_the_character(blank, ';');
    let a = text::in_front_of(blank, ';');
    if a.len() < blank.len() {
        assert(blank.contains(blank[a.len() as int]));
    }
    assert(a =~= blank);
    text::law_blank_text_is_white_space(blank);
    assert forall|parameters: Seq<char>|
        media_type_of(#[trigger] (blank + seq![';'] + parameters)).len() == 0 by {
        let whole = blank + seq![';'] + parameters;
        text::law_front_ends_at_the_character(whole, ';');
        let b = text::in_front_of(whole, ';');
        assert(whole[blank.len() as int] == ';');
        if b.len() > blank.len() {
            assert(b[blank.len() as int] == ';');
            assert(b.contains(';'));
        }
        assert forall|k: int| 0 <= k < b.len() implies text::white_space(#[trigger] b[k]) by {
            assert(b[k] == whole[k] && whole[k] == blank[k]);
        }
        text::law_blank_text_is_white_space(b);
    }
    law_accepted_media_types(Seq::empty());
    reveal_strlit("application/json");
    reveal_strlit("image/png");
    reveal_strlit("image/jpeg");
    reveal_strlit("image/webp");
    reveal_strlit("application/octet-stream");
    reveal_strlit("application/x-mpkg");
    assert(text::lowered(Seq::empty()).len() == 0);
}

/// An address may be used for an icon exactly when it is `https://` and something.
pub proof fn law_icons_come_over_https(url: Seq<char>)
    ensures
        is_https(url) <==> exists|rest: Seq<char>| url == #[trigger] ("https://"@ + rest),
{
    if is_https(url) {
        assert(url =~= "https://"@ + url.skip("https://"@.len() as int));
    }
    if exists|rest: Seq<char>| url == #[trigger] ("https://"@ + rest) {
        let rest = choose|rest: Seq<char>| url == #[trigger] ("https://"@ + rest);
        assert("https://"@ =~= url.take("https://"@.len() as int));
    }
}

/// A range names its first and its last byte: read back, the numbers are the offset and the
/// offset and the length less one. There is none where nothing is asked for at the start, or where
/// the end is beyond what the machine can count.
pub proof fn law_range_names_first_and_last_byte(offset: usize, length: usize)
    ensures
        has_range_end(offset, length) <==> (offset > 0 || length > 0) && offset + length
            <= usize::MAX,
        has_range_end(offset, length) ==> {
            let first = text::decimal(offset as nat);
            let last = text::decimal((offset + length - 1) as nat);
            &&& byte_range(offset, length) == first + seq!['-'] + last
            &&& range_header(offset, length) == "bytes="@ + first + seq!['-'] + last
            &&& text::digits_value(first) == offset
            &&& text::digits_value(last) == offset + length - 1
        },
{
    if has_range_end(offset, length) {
        reveal_strlit("-");
        assert("-"@ =~= seq!['-']);
        assert(range_header(offset, length) =~= "bytes="@ + text::decimal(offset as nat) + seq!['-']
            + text::decimal((offset + length - 1) as nat));
        text::law_decimal_is_the_number(offset as nat);
        text::law_decimal_is_the_number((offset + length - 1) as nat);
    }
}

/// A request asks for its address, under its number, within its time and for its range.
pub proof fn law_request_is_as_described(
    request: HttpGet,
    request_id: u64,
    url: Seq<char>,
    timeout_ms: u32,
    range: Seq<char>,
)
    requires
        request.is(request_id, url, timeout_ms, range),
    ensures
        request.request_id == request_id,
        request.url@ == url,
        request.timeout_ms == timeout_ms,
        request.range@ == range,
{
}

/// What is announced is fetched, for the request that it answers and as what was asked for; where
/// nothing is announced nothing is fetched.
pub proof fn law_announced_response_is_fetched(
    announced: Option<HttpResult>,
    resource: Resource,
    fetch: Option<(u64, Transfer)>,
)
    requires
        is_fetch(announced, resource, fetch),
    ensures
        announced is None ==> fetch is None,
        announced matches Some(result) ==> {
            &&& fetch is Some
            &&& (fetch->0).0 == result.request_id
            &&& (fetch->0).1@ == transfer::transfer_start(result, resource)
        },
{
}

} // verus!
