use appstore::api::{
    finish_icon_request, finish_package_request, finish_release_request, finish_storefront_request,
    response_request_id, ApiError, HttpFailure, Resource,
};
use appstore::transfer::{
    call, close, finish_request, network_service, service_unavailable, Action, HttpResult,
    HttpStream, ReadReply, Transfer, MAX_HEADERS_BYTES,
};

const REQUEST: u64 = 7;
const HANDLE: u64 = 70;

fn head(headers_length: usize, body_length: usize) -> HttpResult {
    HttpResult {
        request_id: REQUEST,
        status: 0,
        failure: HttpFailure::NoFailure,
        status_code: 200,
        handle: HANDLE,
        content_type: String::from(" Application/JSON ; charset=utf-8"),
        headers_length,
        body_length,
    }
}

fn part(data: &[u8], complete: bool) -> ReadReply {
    ReadReply {
        request_id: REQUEST,
        status: 0,
        failure: HttpFailure::NoFailure,
        handle: HANDLE,
        complete,
        data: data.to_vec(),
    }
}

fn closed() -> ReadReply {
    part(&[], true)
}

/// Runs a transfer with these answers; gives back the messages that were due, and the result.
fn drive(
    start: Transfer,
    replies: Vec<Result<ReadReply, ApiError>>,
) -> (Vec<String>, Result<Vec<u8>, ApiError>) {
    let mut transfer = start;
    let mut messages = Vec::new();
    for reply in replies {
        match transfer.action(4) {
            Action::Read { request_id, handle, stream, maximum } => {
                assert_eq!((request_id, handle), (REQUEST, HANDLE));
                let name = match stream {
                    HttpStream::Headers => "headers",
                    HttpStream::Body => "body",
                };
                messages.push(format!("{name} {maximum}"));
            }
            Action::Close { request_id, handle } => {
                assert_eq!((request_id, handle), (REQUEST, HANDLE));
                messages.push(String::from("close"));
            }
            Action::Finish => panic!("an answer too many"),
        }
        transfer = transfer.advance(reply);
    }
    assert!(matches!(transfer.action(4), Action::Finish));
    (messages, transfer.into_result().expect("the transfer is over"))
}

fn fetch(
    head: HttpResult,
    replies: Vec<Result<ReadReply, ApiError>>,
) -> (Vec<String>, Result<Vec<u8>, ApiError>) {
    drive(finish_request(head, Resource::Storefront), replies)
}

#[test]
fn headers_and_body_are_read_in_parts_and_closed() {
    let (messages, result) = fetch(
        head(3, 6),
        vec![
            Ok(part(b"abc", true)),
            Ok(part(b"{12", false)),
            Ok(part(b"34}", true)),
            Ok(closed()),
        ],
    );
    assert_eq!(messages, ["headers 3", "body 4", "body 3", "close"]);
    assert_eq!(result.expect("body"), b"{1234}");
}

#[test]
fn response_without_headers_is_read_at_once() {
    let (messages, result) = fetch(head(0, 2), vec![Ok(part(b"{}", true)), Ok(closed())]);
    assert_eq!(messages, ["body 2", "close"]);
    assert_eq!(result.expect("body"), b"{}");
}

#[test]
fn failed_request_is_over_at_once() {
    let mut failed = head(0, 2);
    failed.failure = HttpFailure::Failed(String::from("Timeout"));
    let (messages, result) = fetch(failed, Vec::new());
    assert!(messages.is_empty());
    assert!(matches!(
        result,
        Err(ApiError::ServiceFailure { status: 0, failure: HttpFailure::Failed(name) }) if name == "Timeout"
    ));

    let mut refused = head(0, 2);
    refused.status = -5;
    refused.status_code = 404;
    let (_, result) = fetch(refused, Vec::new());
    assert!(matches!(
        result,
        Err(ApiError::ServiceFailure { status: -5, failure: HttpFailure::NoFailure })
    ));
}

#[test]
fn faulty_head_is_closed_unread() {
    let mut status = head(0, 2);
    status.status_code = 404;
    status.content_type = String::from("text/html");
    let (messages, result) = fetch(status, vec![Ok(closed())]);
    assert_eq!(messages, ["close"]);
    assert!(matches!(result, Err(ApiError::HttpStatus(404))));

    let mut kind = head(0, 0);
    kind.content_type = String::from("text/html");
    let (messages, result) = fetch(kind, vec![Err(ApiError::Protocol)]);
    assert_eq!(messages, ["close"]);
    assert!(matches!(result, Err(ApiError::InvalidContentType)));

    for wrong in [head(0, 0), head(0, 4 * 1024 * 1024 + 1), head(MAX_HEADERS_BYTES + 1, 2)] {
        let (messages, result) = fetch(wrong, vec![Ok(closed())]);
        assert_eq!(messages, ["close"]);
        assert!(matches!(result, Err(ApiError::ResponseTooLarge)));
    }
}

#[test]
fn faults_while_reading_end_it() {
    let mut other_request = part(b"{}", true);
    other_request.request_id = 8;
    other_request.handle = 9;
    let (messages, result) = fetch(head(0, 2), vec![Ok(other_request), Ok(closed())]);
    assert_eq!(messages, ["body 2", "close"]);
    assert!(matches!(result, Err(ApiError::RequestIdMismatch)));

    let mut other_handle = part(b"{}", true);
    other_handle.handle = 9;
    other_handle.status = 1;
    let (_, result) = fetch(head(0, 2), vec![Ok(other_handle), Ok(closed())]);
    assert!(matches!(result, Err(ApiError::HandleMismatch)));

    let mut failed = part(b"", false);
    failed.status = 3;
    let (_, result) = fetch(head(0, 2), vec![Ok(failed), Ok(closed())]);
    assert!(matches!(result, Err(ApiError::ServiceFailure { status: 3, .. })));

    let (_, result) = fetch(head(0, 2), vec![Ok(part(b"", false)), Ok(closed())]);
    assert!(matches!(result, Err(ApiError::Truncated)));

    let (_, result) =
        fetch(head(0, 2), vec![Err(ApiError::ServiceUnavailable(4)), Ok(closed())]);
    assert!(matches!(result, Err(ApiError::ServiceUnavailable(4))));
}

#[test]
fn headers_have_to_come_whole() {
    let (messages, result) = fetch(head(3, 2), vec![Ok(part(b"ab", true)), Ok(closed())]);
    assert_eq!(messages, ["headers 3", "close"]);
    assert!(matches!(result, Err(ApiError::Truncated)));
}

#[test]
fn body_has_to_have_the_announced_length() {
    for replies in [
        vec![Ok(part(b"{", true)), Ok(closed())],
        vec![Ok(part(b"{}", false)), Ok(closed())],
        vec![Ok(part(b"{}}", true)), Ok(closed())],
        vec![Ok(part(b"{", false)), Ok(part(b"", true)), Ok(closed())],
    ] {
        let (_, result) = fetch(head(0, 2), replies);
        assert!(matches!(result, Err(ApiError::Truncated)));
    }
}

#[test]
fn fault_while_closing_spoils_the_body() {
    let mut open = closed();
    open.complete = false;
    let (_, result) = fetch(head(0, 2), vec![Ok(part(b"{}", true)), Ok(open)]);
    assert!(matches!(result, Err(ApiError::HandleMismatch)));

    let (_, result) = fetch(head(0, 2), vec![Ok(part(b"{", true)), Err(ApiError::Protocol)]);
    assert!(matches!(result, Err(ApiError::Truncated)));
}

#[test]
fn closing_is_judged_by_its_answer() {
    assert!(close(REQUEST, HANDLE, Ok(closed())).is_ok());
    assert!(matches!(close(8, HANDLE, Ok(closed())), Err(ApiError::RequestIdMismatch)));
    assert!(matches!(close(REQUEST, 9, Ok(closed())), Err(ApiError::HandleMismatch)));
    assert!(matches!(
        close(REQUEST, HANDLE, Ok(part(b"x", true))),
        Err(ApiError::HandleMismatch)
    ));
    let mut failed = closed();
    failed.status = 2;
    assert!(matches!(
        close(REQUEST, HANDLE, Ok(failed)),
        Err(ApiError::ServiceFailure { status: 2, .. })
    ));
    assert!(matches!(
        close(REQUEST, HANDLE, Err(ApiError::Protocol)),
        Err(ApiError::Protocol)
    ));
}

#[test]
fn finished_transfer_stays_as_it_is() {
    let mut failed = head(0, 2);
    failed.status = 1;
    let transfer = finish_request(failed, Resource::Icon).advance(Ok(closed()));
    assert!(matches!(
        transfer.into_result(),
        Some(Err(ApiError::ServiceFailure { status: 1, .. }))
    ));
    assert!(finish_request(head(0, 2), Resource::Storefront).into_result().is_none());
}

#[test]
fn lower_half_of_a_call_is_the_length() {
    assert!(matches!(call(Ok(0xabcd_0000_0000_0010), 16), Ok(16)));
    assert!(matches!(call(Ok(17), 16), Err(ApiError::Protocol)));
    assert!(matches!(call(Ok(0xffff_ffff_0000_0000), 0), Ok(0)));
    assert!(matches!(call(Err(Some(11)), 16), Err(ApiError::ServiceUnavailable(11))));
    assert!(matches!(call(Err(None), 16), Err(ApiError::ServiceUnavailable(0))));
}

#[test]
fn service_needs_a_number() {
    assert!(matches!(network_service(Ok(5), 2), Ok(5)));
    assert!(matches!(network_service(Ok(0), 2), Err(ApiError::ServiceUnavailable(2))));
    assert!(matches!(network_service(Err(Some(9)), 2), Err(ApiError::ServiceUnavailable(9))));
    assert!(matches!(network_service(Err(None), 2), Err(ApiError::ServiceUnavailable(0))));
    assert!(matches!(service_unavailable(Some(3)), ApiError::ServiceUnavailable(3)));
}

#[test]
fn each_kind_of_answer_has_its_own_rules() {
    let typed = |content_type: &str, status_code: u16, body_length: usize| HttpResult {
        content_type: String::from(content_type),
        status_code,
        body_length,
        ..head(0, 1)
    };
    let reads = |fetch: Option<(u64, Transfer)>| {
        let (request_id, transfer) = fetch.expect("an answer is announced");
        assert_eq!(request_id, REQUEST);
        matches!(transfer.action(4), Action::Read { .. })
    };
    let mega = 1024 * 1024;
    let json = "application/json";
    assert!(reads(finish_storefront_request(Some(typed(json, 200, 4 * mega)))));
    assert!(!reads(finish_storefront_request(Some(typed(json, 200, 4 * mega + 1)))));
    assert!(!reads(finish_storefront_request(Some(typed(json, 206, 1)))));
    assert!(reads(finish_release_request(Some(typed(json, 200, mega)))));
    assert!(!reads(finish_release_request(Some(typed(json, 200, mega + 1)))));
    assert!(!reads(finish_release_request(Some(typed("image/png", 200, 1)))));
    for picture in ["image/png", "IMAGE/JPEG", "image/webp;x"] {
        assert!(reads(finish_icon_request(Some(typed(picture, 200, 2 * mega)))));
        assert!(!reads(finish_icon_request(Some(typed(picture, 200, 2 * mega + 1)))));
    }
    assert!(!reads(finish_icon_request(Some(typed("image/gif", 200, 1)))));
    for package in ["application/octet-stream", "Application/X-MPKG"] {
        for status in [200, 206] {
            assert!(reads(finish_package_request(Some(typed(package, status, 2 * mega)))));
            assert!(!reads(finish_package_request(Some(typed(package, status, 2 * mega + 1)))));
        }
        assert!(!reads(finish_package_request(Some(typed(package, 204, 1)))));
    }
    assert!(!reads(finish_package_request(Some(typed(json, 200, 1)))));
}

#[test]
fn other_messages_start_nothing() {
    assert!(finish_storefront_request(None).is_none());
    assert!(finish_icon_request(None).is_none());
    assert!(finish_release_request(None).is_none());
    assert!(finish_package_request(None).is_none());
    assert_eq!(response_request_id(None), None);
    assert_eq!(response_request_id(Some(&head(0, 1))), Some(REQUEST));
}
