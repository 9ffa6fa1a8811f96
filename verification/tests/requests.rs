use appstore::api::{
    decoded_reply, encoded_request, sent_request, start_icon_request, start_package_request,
    start_release_request, start_storefront_request, ApiError, DataRequest, HttpFailure, HttpGet,
};
use appstore::url::{api_base_url, encode_component};

fn parts(request: HttpGet) -> (u64, String, u32, String) {
    (request.request_id, request.url, request.timeout_ms, request.range)
}

#[test]
fn storefront_is_asked_for_at_the_configured_server() {
    assert_eq!(api_base_url(None), "https://api.store.mochios.org/v1");
    assert_eq!(api_base_url(Some("http://localhost:8080/")), "http://localhost:8080/");
    assert_eq!(
        parts(start_storefront_request(3, api_base_url(None))),
        (
            3,
            String::from("https://api.store.mochios.org/v1/storefront"),
            15_000,
            String::new()
        )
    );
    assert_eq!(
        start_storefront_request(3, "http://localhost:8080//").url,
        "http://localhost:8080/storefront"
    );
}

#[test]
fn icons_need_https() {
    let request = start_icon_request(9, "https://example.org/a.png").expect("HTTPS");
    assert_eq!(request.message_room(), 48 + "https://example.org/a.png".len());
    assert_eq!(
        parts(request),
        (9, String::from("https://example.org/a.png"), 5_000, String::new())
    );
    for url in ["http://example.org/a.png", "HTTPS://example.org", "https:/", ""] {
        assert!(matches!(start_icon_request(9, url), Err(ApiError::Protocol)));
    }
}

#[test]
fn releases_are_asked_for_with_their_machine() {
    assert_eq!(
        parts(start_release_request(4, "https://x/v1/", "org.mochios.notes+/")),
        (
            4,
            String::from(
                "https://x/v1/apps/org.mochios.notes%2B%2F/releases?architecture=x86_64&abi=mochios-1"
            ),
            15_000,
            String::new()
        )
    );
}

#[test]
fn packages_are_asked_for_in_ranges() {
    let request = start_package_request(5, "https://x", "a b", "1.0&x", 100, 50).expect("range");
    assert_eq!(
        parts(request),
        (
            5,
            String::from(
                "https://x/apps/a%20b/download?version=1.0%26x&architecture=x86_64&abi=mochios-1"
            ),
            120_000,
            String::from("bytes=100-149")
        )
    );
    let range = |offset, length| {
        start_package_request(5, "https://x", "a", "1", offset, length).map(|request| request.range)
    };
    assert_eq!(range(0, 1).expect("range"), "bytes=0-0");
    assert_eq!(range(5, 0).expect("range"), "bytes=5-4");
    assert!(matches!(range(0, 0), Err(ApiError::Protocol)));
    assert!(matches!(range(usize::MAX, 1), Err(ApiError::Protocol)));
    assert_eq!(range(usize::MAX, 0).expect("range"), format!("bytes={}-{}", usize::MAX, usize::MAX - 1));
}

#[test]
fn components_escape_all_but_unreserved_bytes() {
    assert_eq!(encode_component("AZaz09-_.~"), "AZaz09-_.~");
    assert_eq!(encode_component("a/b c%"), "a%2Fb%20c%25");
    assert_eq!(encode_component("é日"), "%C3%A9%E6%97%A5");
    assert_eq!(encode_component(""), "");
    assert_eq!(encode_component("\u{0}\u{7f}"), "%00%7F");
}

#[test]
fn sending_a_request_leaves_it_pending() {
    assert!(matches!(encoded_request(Some(60)), Ok(60)));
    assert!(matches!(encoded_request(None), Err(ApiError::Protocol)));
    assert!(matches!(sent_request::<Vec<u8>>(Ok(())), Ok(DataRequest::Pending)));
    assert!(matches!(
        sent_request::<Vec<u8>>(Err(Some(6))),
        Err(ApiError::ServiceUnavailable(6))
    ));
    assert!(matches!(
        sent_request::<Vec<u8>>(Err(None)),
        Err(ApiError::ServiceUnavailable(0))
    ));
}

#[test]
fn fetched_bytes_have_to_be_json() {
    assert!(matches!(decoded_reply(Ok(vec![1]), Some(5)), Ok(5)));
    assert!(matches!(decoded_reply::<u8>(Ok(vec![1]), None), Err(ApiError::InvalidJson)));
    assert!(matches!(
        decoded_reply(Err(ApiError::Truncated), Some(5)),
        Err(ApiError::Truncated)
    ));
}

#[test]
fn every_error_has_its_sentence() {
    let failed = HttpFailure::Failed(String::from("Timeout"));
    let sentences = [
        (ApiError::ServiceUnavailable(11), "network service unavailable (errno 11)"),
        (ApiError::Protocol, "invalid network service response"),
        (ApiError::RequestIdMismatch, "network response did not match request"),
        (ApiError::HandleMismatch, "network response handle did not match"),
        (
            ApiError::ServiceFailure { status: -7, failure: failed.clone() },
            "network request failed (Timeout, status -7)",
        ),
        (
            ApiError::ServiceFailure { status: 12, failure: HttpFailure::NoFailure },
            "network request failed (None, status 12)",
        ),
        (ApiError::ResponseTooLarge, "store response is too large"),
        (ApiError::Truncated, "store response ended unexpectedly"),
        (ApiError::HttpStatus(503), "App Store API returned HTTP 503"),
        (ApiError::InvalidContentType, "App Store API returned an unsupported content type"),
        (ApiError::InvalidJson, "App Store API returned invalid catalog data"),
    ];
    for (error, sentence) in sentences {
        assert_eq!(error.message(), sentence);
    }
}
