use appstore::api::DataRequest;
use appstore::preview_api::{
    curl, curl_arguments, decoded_json, failed_run, fetch_storefront, finish_icon_request,
    finish_package_request, finish_release_request, ready, response_request_id, start_icon_request,
    start_package_request, start_release_request, ApiError, CurlRun,
};

const COMMON: [&str; 4] = ["--fail", "--silent", "--show-error", "--max-time"];

fn with_common(rest: &[&str]) -> Vec<String> {
    COMMON.iter().chain(rest).map(|argument| String::from(*argument)).collect()
}

fn reason(error: ApiError) -> String {
    match error {
        ApiError::Request(reason) => reason,
        ApiError::InvalidJson(_) => panic!("the request failed"),
    }
}

#[test]
fn storefront_run() {
    assert_eq!(
        fetch_storefront("http://localhost/"),
        with_common(&["15", "--max-filesize", "4194304", "http://localhost/storefront"])
    );
}

#[test]
fn icon_run_needs_https() {
    assert_eq!(
        start_icon_request(1, "https://example.org/a.png").expect("HTTPS"),
        with_common(&["5", "--max-filesize", "2097152", "https://example.org/a.png"])
    );
    let error = start_icon_request(1, "http://example.org/a.png").expect_err("no HTTPS");
    assert_eq!(reason(error), "icon URL must use HTTPS");
}

#[test]
fn release_run() {
    assert_eq!(
        start_release_request(1, "https://x", "a/b"),
        with_common(&[
            "15",
            "--max-filesize",
            "1048576",
            "https://x/apps/a%2Fb/releases?architecture=x86_64&abi=mochios-1",
        ])
    );
}

#[test]
fn package_run_follows_and_has_a_range() {
    assert_eq!(
        start_package_request(1, "https://x", "a", "1.0", 10, 5).expect("range"),
        with_common(&[
            "120",
            "--max-filesize",
            "2097153",
            "--location",
            "--range",
            "10-14",
            "https://x/apps/a/download?version=1.0&architecture=x86_64&abi=mochios-1",
        ])
    );
    for (offset, length) in [(0, 0), (usize::MAX, 1)] {
        let error = start_package_request(1, "https://x", "a", "1.0", offset, length)
            .expect_err("no range");
        assert_eq!(reason(error), "invalid package byte range");
    }
}

#[test]
fn address_stands_last() {
    let list = curl_arguments("u", "1", "2", true, None);
    assert_eq!(list[7..], ["--location", "u"]);
    let list = curl_arguments("u", "1", "2", false, Some("3-4"));
    assert_eq!(list[7..], ["--range", "3-4", "u"]);
}

#[test]
fn run_is_judged_by_its_end() {
    let run = |success, stderr: &[u8]| CurlRun::Ended {
        success,
        stdout: vec![1, 2],
        stderr: stderr.to_vec(),
    };
    assert_eq!(curl(run(true, b"noise")).expect("success"), [1, 2]);
    assert_eq!(reason(curl(run(false, b" curl: (22) 404 \n")).expect_err("failure")), "curl: (22) 404");
    assert_eq!(reason(curl(run(false, b"bad \xff byte\n")).expect_err("failure")), "bad \u{fffd} byte");
    assert_eq!(
        reason(curl(CurlRun::NotStarted(String::from(" not found "))).expect_err("failure")),
        " not found "
    );
    assert_eq!(reason(failed_run("\ttext ")), "text");
}

#[test]
fn answers_are_there_at_once() {
    assert!(matches!(ready(Ok(vec![3])), Ok(DataRequest::Ready(bytes)) if bytes == [3]));
    assert!(ready(Err(failed_run("x"))).is_err());
    assert!(finish_icon_request(&[1]).is_none());
    assert!(finish_release_request::<u8>(&[1]).is_none());
    assert!(finish_package_request(&[1]).is_none());
    assert!(response_request_id(&[1]).is_none());
}

#[test]
fn unreadable_json_is_an_error() {
    assert!(matches!(decoded_json(Ok(3)), Ok(3)));
    let error = decoded_json::<u8>(Err(String::from("line 1"))).expect_err("no JSON");
    assert_eq!(error.message(), "App Store API returned invalid JSON: line 1");
    assert_eq!(failed_run("gone").message(), "App Store API request failed: gone");
}
