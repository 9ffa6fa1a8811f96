//! The store's server as a preview reaches it: through the program `curl`.
//!
//! Nothing here runs a program. Every request is a list of arguments for `curl`, and what a run
//! left behind is judged here.

use vstd::prelude::*;
use vstd::utf8::*;

use crate::api;
use crate::api::{DataRequest, Resource, MAX_PACKAGE_CHUNK_BYTES};
use crate::text;
use crate::url;

verus! {

/// Why a request of the preview has no usable answer.
#[derive(Debug)]
pub enum ApiError {
    /// It failed, for the reason given.
    Request(String),
    /// The answer is not the JSON that the store expects, for the reason given.
    InvalidJson(String),
}

/// The sentence that tells a user of an error.
pub open spec fn error_sentence(error: ApiError) -> Seq<char> {
    match error {
        ApiError::Request(reason) => "App Store API request failed: "@ + reason@,
        ApiError::InvalidJson(reason) => "App Store API returned invalid JSON: "@ + reason@,
    }
}

impl ApiError {
    /// The sentence that tells a user of the error.
    pub fn message(&self) -> (sentence: String)
        ensures
            sentence@ == error_sentence(*self),
    {
        match self {
            ApiError::Request(reason) => {
                text::joined("App Store API request failed: ", reason.as_str())
            },
            ApiError::InvalidJson(reason) => {
                text::joined("App Store API returned invalid JSON: ", reason.as_str())
            },
        }
    }
}

/// The arguments of a run of `curl`.
pub open spec fn arguments(
    url: Seq<char>,
    timeout: Seq<char>,
    maximum: Seq<char>,
    follow: bool,
    range: Option<Seq<char>>,
) -> Seq<Seq<char>> {
    seq![
        "--fail"@,
        "--silent"@,
        "--show-error"@,
        "--max-time"@,
        timeout,
        "--max-filesize"@,
        maximum,
    ] + (if follow {
        seq!["--location"@]
    } else {
        Seq::empty()
    }) + (match range {
        Some(range) => seq!["--range"@, range],
        None => Seq::empty(),
    }) + seq![url]
}

/// The address that is fetched stands behind everything else that `curl` is told.
pub proof fn law_address_stands_last(
    url: Seq<char>,
    timeout: Seq<char>,
    maximum: Seq<char>,
    follow: bool,
    range: Option<Seq<char>>,
)
    ensures
        arguments(url, timeout, maximum, follow, range).last() == url,
{
}

/// The characters of texts.
pub open spec fn spelled(texts: Seq<String>) -> Seq<Seq<char>> {
    texts.map_values(|text: String| text@)
}

/// Appends a text to a list of texts.
fn push_argument(arguments: &mut Vec<String>, argument: &str)
    ensures
        spelled(final(arguments)@) == spelled(old(arguments)@).push(argument@),
{
    arguments.push(argument.to_owned());
    assert(spelled(arguments@) =~= spelled(old(arguments)@).push(argument@));
}

/// The arguments of a run of `curl` that fetches `url` in at most `timeout` seconds and gives up
/// on more than `maximum` bytes.
pub fn curl_arguments(
    url: &str,
    timeout: &str,
    maximum: &str,
    follow: bool,
    range: Option<&str>,
) -> (list: Vec<String>)
    ensures
        spelled(list@) == arguments(
            url@,
            timeout@,
            maximum@,
            follow,
            match range {
                Some(range) => Some(range@),
                None => None,
            },
        ),
{
    let mut list: Vec<String> = Vec::new();
    assert(spelled(list@) =~= Seq::empty());
    push_argument(&mut list, "--fail");
    push_argument(&mut list, "--silent");
    push_argument(&mut list, "--show-error");
    push_argument(&mut list, "--max-time");
    push_argument(&mut list, timeout);
    push_argument(&mut list, "--max-filesize");
    push_argument(&mut list, maximum);
    if follow {
        push_argument(&mut list, "--location");
    }
    if let Some(range) = range {
        push_argument(&mut list, "--range");
        push_argument(&mut list, range);
    }
    push_argument(&mut list, url);
    list
}

/// What a run of `curl` left behind.
pub enum CurlRun {
    /// It could not be started, for the reason given.
    NotStarted(String),
    /// It ran to its end.
    Ended { success: bool, stdout: Vec<u8>, stderr: Vec<u8> },
}

/// The text that `String::from_utf8_lossy` makes of bytes.
pub uninterp spec fn utf8_lossy(bytes: Seq<u8>) -> Seq<char>;

/// Calls `String::from_utf8_lossy`, which reads bytes as UTF-8 and puts a replacement character
/// where they are none. Bytes that are UTF-8 come out as the text that they encode.
#[verifier::external_body]
fn lossy_text(bytes: &[u8]) -> (lossy: String)
    ensures
        lossy@ == utf8_lossy(bytes@),
        valid_utf8(bytes@) ==> lossy@ == decode_utf8(bytes@),
{
    String::from_utf8_lossy(bytes).into_owned()
}

/// The error for a run that failed and said `complaint`.
pub fn failed_run(complaint: &str) -> (error: ApiError)
    ensures
        error is Request,
        error->Request_0@ == text::trimmed(complaint@),
{
    ApiError::Request(text::trim(complaint))
}

/// What a run of `curl` fetched.
pub fn curl(run: CurlRun) -> (fetched: Result<Vec<u8>, ApiError>)
    ensures
        match run {
            CurlRun::NotStarted(reason) => fetched == Err::<Vec<u8>, ApiError>(
                ApiError::Request(reason),
            ),
            CurlRun::Ended { success: true, stdout, .. } => fetched == Ok::<Vec<u8>, ApiError>(
                stdout,
            ),
            CurlRun::Ended { success: false, stderr, .. } => {
                &&& fetched is Err
                &&& fetched->Err_0 is Request
                &&& fetched->Err_0->Request_0@ == text::trimmed(utf8_lossy(stderr@))
                &&& valid_utf8(stderr@) ==> fetched->Err_0->Request_0@ == text::trimmed(
                    decode_utf8(stderr@),
                )
            },
        },
{
    match run {
        CurlRun::NotStarted(reason) => Err(ApiError::Request(reason)),
        CurlRun::Ended { success, stdout, stderr } => if success {
            Ok(stdout)
        } else {
            Err(failed_run(lossy_text(stderr.as_slice()).as_str()))
        },
    }
}

/// Fetched data as an answer that is there at once.
pub fn ready(fetched: Result<Vec<u8>, ApiError>) -> (request: Result<
    DataRequest<Vec<u8>>,
    ApiError,
>)
    ensures
        request == match fetched {
            Ok(bytes) => Ok::<DataRequest<Vec<u8>>, ApiError>(DataRequest::Ready(bytes)),
            Err(error) => Err(error),
        },
{
    match fetched {
        Ok(bytes) => Ok(DataRequest::Ready(bytes)),
        Err(error) => Err(error),
    }
}

/// What fetched bytes were read as, where they could be read as JSON; else the reader's reason.
pub fn decoded_json<T>(parsed: Result<T, String>) -> (reply: Result<T, ApiError>)
    ensures
        reply == match parsed {
            Ok(value) => Ok::<T, ApiError>(value),
            Err(reason) => Err(ApiError::InvalidJson(reason)),
        },
{
    match parsed {
        Ok(value) => Ok(value),
        Err(reason) => Err(ApiError::InvalidJson(reason)),
    }
}

/// The largest body that the store accepts for a kind of answer, in decimal.
fn limit_text(resource: Resource) -> (limit: String)
    ensures
        limit@ == text::decimal(api::body_limit(resource)),
{
    let mut limit = String::new();
    text::push_decimal(&mut limit, resource.maximum_body_bytes() as u64);
    limit
}

/// The run of `curl` that fetches the storefront.
pub fn fetch_storefront(base_url: &str) -> (list: Vec<String>)
    ensures
        spelled(list@) == arguments(
            url::storefront_address(base_url@),
            "15"@,
            text::decimal(api::body_limit(Resource::Storefront)),
            false,
            None,
        ),
{
    let url = url::storefront_url(base_url);
    curl_arguments(url.as_str(), "15", limit_text(Resource::Storefront).as_str(), false, None)
}

/// The run of `curl` that fetches an icon.
pub fn start_icon_request(_request_id: u64, url: &str) -> (list: Result<Vec<String>, ApiError>)
    ensures
        match list {
            Ok(list) => api::is_https(url@) && spelled(list@) == arguments(
                url@,
                "5"@,
                text::decimal(api::body_limit(Resource::Icon)),
                false,
                None,
            ),
            Err(error) => !api::is_https(url@) && error is Request && error->Request_0@
                == "icon URL must use HTTPS"@,
        },
{
    if !text::starts_with(url, "https://") {
        return Err(ApiError::Request("icon URL must use HTTPS".to_owned()));
    }
    Ok(curl_arguments(url, "5", limit_text(Resource::Icon).as_str(), false, None))
}

/// An icon of the preview is never announced: it is there at once.
pub fn finish_icon_request(_message: &[u8]) -> (finished: Option<(u64, Result<Vec<u8>, ApiError>)>)
    ensures
        finished is None,
{
    None
}

/// The run of `curl` that fetches the releases of an app.
pub fn start_release_request(_request_id: u64, base_url: &str, bundle_id: &str) -> (list: Vec<
    String,
>)
    ensures
        spelled(list@) == arguments(
            url::release_address(base_url@, bundle_id@),
            "15"@,
            text::decimal(api::body_limit(Resource::Release)),
            false,
            None,
        ),
{
    let url = url::release_url(base_url, bundle_id);
    curl_arguments(url.as_str(), "15", limit_text(Resource::Release).as_str(), false, None)
}

/// A description of a release is never announced to the preview: it is there at once.
pub fn finish_release_request<T>(_message: &[u8]) -> (finished: Option<(u64, Result<T, ApiError>)>)
    ensures
        finished is None,
{
    None
}

/// The run of `curl` that fetches a part of a package.
pub fn start_package_request(
    _request_id: u64,
    base_url: &str,
    bundle_id: &str,
    version: &str,
    offset: usize,
    length: usize,
) -> (list: Result<Vec<String>, ApiError>)
    ensures
        match list {
            Ok(list) => api::has_range_end(offset, length) && spelled(list@) == arguments(
                url::package_address(base_url@, bundle_id@, version@),
                "120"@,
                text::decimal((MAX_PACKAGE_CHUNK_BYTES + 1) as nat),
                true,
                Some(api::byte_range(offset, length)),
            ),
            Err(error) => !api::has_range_end(offset, length) && error is Request
                && error->Request_0@ == "invalid package byte range"@,
        },
{
    let url = url::package_url(base_url, bundle_id, version);
    match api::range_text(offset, length) {
        Some(range) => {
            let mut maximum = String::new();
            text::push_decimal(&mut maximum, (MAX_PACKAGE_CHUNK_BYTES + 1) as u64);
            Ok(curl_arguments(url.as_str(), "120", maximum.as_str(), true, Some(range.as_str())))
        },
        None => Err(ApiError::Request("invalid package byte range".to_owned())),
    }
}

/// A part of a package is never announced to the preview: it is there at once.
pub fn finish_package_request(_message: &[u8]) -> (finished: Option<
    (u64, Result<Vec<u8>, ApiError>),
>)
    ensures
        finished is None,
{
    None
}

/// No message answers a request of the preview.
pub fn response_request_id(_message: &[u8]) -> (request_id: Option<u64>)
    ensures
        request_id is None,
{
    None
}

/// `curl` is told to fail on an error of the server and to be silent but for errors, then how long
/// it may take and how much it may fetch, then to follow redirections and which range to ask for
/// where that is so, and nothing else in front of the address.
pub proof fn law_curl_is_told_what_is_asked(
    url: Seq<char>,
    timeout: Seq<char>,
    maximum: Seq<char>,
    follow: bool,
    range: Option<Seq<char>>,
)
    ensures
        ({
            let list = arguments(url, timeout, maximum, follow, range);
            let at: int = if follow {
                8
            } else {
                7
            };
            &&& list[0] == "--fail"@
            &&& list[1] == "--silent"@
            &&& list[2] == "--show-error"@
            &&& list[3] == "--max-time"@
            &&& list[4] == timeout
            &&& list[5] == "--max-filesize"@
            &&& list[6] == maximum
            &&& follow ==> list[7] == "--location"@
            &&& range matches Some(range) ==> list[at] == "--range"@ && list[at + 1] == range
                && list[at + 2] == url && list.len() == at + 3
            &&& range is None ==> list[at] == url && list.len() == at + 1
        }),
{
}

/// Texts are spelled as they are, in order.
pub proof fn law_texts_are_spelled_as_they_are(texts: Seq<String>, i: int)
    requires
        0 <= i < texts.len(),
    ensures
        spelled(texts).len() == texts.len(),
        spelled(texts)[i] == texts[i]@,
{
}

/// An error is told with the whole of its reason, whatever that is.
pub proof fn law_reasons_are_told(reason: String)
    ensures
        error_sentence(ApiError::Request(reason)) == "App Store API request failed: "@ + reason@,
        error_sentence(ApiError::InvalidJson(reason)) == "App Store API returned invalid JSON: "@
            + reason@,
{
}

} // verus!
