use appstore::api::{ApiError, DataRequest};
use appstore::catalog::{CatalogApp, Storefront, StorefrontSection};
use appstore::icons::{
    accept_icon, decode_icon, handle_platform_message, icon_requests, loaded_icon,
    start_icon_requests, IconBook, IconRequest, LoadedIcon,
};

/// A picture of two by one pixels.
const SMALL: &[u8] = &[
    0x89, 0x50, 0x4e, 0x47, 0x0d, 0x0a, 0x1a, 0x0a, 0x00, 0x00, 0x00, 0x0d, 0x49, 0x48, 0x44, 0x52,
    0x00, 0x00, 0x00, 0x02, 0x00, 0x00, 0x00, 0x01, 0x08, 0x00, 0x00, 0x00, 0x00, 0xd1, 0x49, 0x20,
    0x56, 0x00, 0x00, 0x00, 0x0b, 0x49, 0x44, 0x41, 0x54, 0x78, 0xda, 0x63, 0x60, 0x60, 0x00, 0x00,
    0x00, 0x03, 0x00, 0x01, 0x2b, 0x09, 0x4d, 0x84, 0x00, 0x00, 0x00, 0x00, 0x49, 0x45, 0x4e, 0x44,
    0xae, 0x42, 0x60, 0x82,
];

/// A picture of three by two pixels.
const OTHER: &[u8] = &[
    0x89, 0x50, 0x4e, 0x47, 0x0d, 0x0a, 0x1a, 0x0a, 0x00, 0x00, 0x00, 0x0d, 0x49, 0x48, 0x44, 0x52,
    0x00, 0x00, 0x00, 0x03, 0x00, 0x00, 0x00, 0x02, 0x08, 0x00, 0x00, 0x00, 0x00, 0xb8, 0x1f, 0x39,
    0xc6, 0x00, 0x00, 0x00, 0x0b, 0x49, 0x44, 0x41, 0x54, 0x78, 0xda, 0x63, 0x60, 0x80, 0x00, 0x00,
    0x00, 0x08, 0x00, 0x01, 0x24, 0xfc, 0x04, 0x72, 0x00, 0x00, 0x00, 0x00, 0x49, 0x45, 0x4e, 0x44,
    0xae, 0x42, 0x60, 0x82,
];

/// A picture as wide as an icon may be.
const WIDEST: &[u8] = &[
    0x89, 0x50, 0x4e, 0x47, 0x0d, 0x0a, 0x1a, 0x0a, 0x00, 0x00, 0x00, 0x0d, 0x49, 0x48, 0x44, 0x52,
    0x00, 0x00, 0x08, 0x00, 0x00, 0x00, 0x00, 0x01, 0x08, 0x00, 0x00, 0x00, 0x00, 0x6f, 0x7f, 0x11,
    0x2e, 0x00, 0x00, 0x00, 0x17, 0x49, 0x44, 0x41, 0x54, 0x78, 0xda, 0x63, 0x60, 0x18, 0x05, 0xa3,
    0x60, 0x14, 0x8c, 0x82, 0x51, 0x30, 0x0a, 0x46, 0xc1, 0x88, 0x03, 0x00, 0x08, 0x01, 0x00, 0x01,
    0xf4, 0x53, 0xf0, 0x4d, 0x00, 0x00, 0x00, 0x00, 0x49, 0x45, 0x4e, 0x44, 0xae, 0x42, 0x60, 0x82,
];

/// A picture that is too wide for an icon.
const TOO_WIDE: &[u8] = &[
    0x89, 0x50, 0x4e, 0x47, 0x0d, 0x0a, 0x1a, 0x0a, 0x00, 0x00, 0x00, 0x0d, 0x49, 0x48, 0x44, 0x52,
    0x00, 0x00, 0x08, 0x01, 0x00, 0x00, 0x00, 0x01, 0x08, 0x00, 0x00, 0x00, 0x00, 0x80, 0xbd, 0x7a,
    0x10, 0x00, 0x00, 0x00, 0x17, 0x49, 0x44, 0x41, 0x54, 0x78, 0xda, 0x63, 0x60, 0x18, 0x05, 0xa3,
    0x60, 0x14, 0x8c, 0x82, 0x51, 0x30, 0x0a, 0x46, 0xc1, 0xc8, 0x03, 0x00, 0x08, 0x02, 0x00, 0x01,
    0xb2, 0x1e, 0x3b, 0x6d, 0x00, 0x00, 0x00, 0x00, 0x49, 0x45, 0x4e, 0x44, 0xae, 0x42, 0x60, 0x82,
];

/// A picture that is too tall for an icon.
const TOO_TALL: &[u8] = &[
    0x89, 0x50, 0x4e, 0x47, 0x0d, 0x0a, 0x1a, 0x0a, 0x00, 0x00, 0x00, 0x0d, 0x49, 0x48, 0x44, 0x52,
    0x00, 0x00, 0x00, 0x01, 0x00, 0x00, 0x08, 0x01, 0x08, 0x00, 0x00, 0x00, 0x00, 0x09, 0x91, 0xd5,
    0x32, 0x00, 0x00, 0x00, 0x1a, 0x49, 0x44, 0x41, 0x54, 0x78, 0xda, 0xed, 0xc1, 0x01, 0x0d, 0x00,
    0x00, 0x00, 0xc2, 0xa0, 0xf7, 0x4f, 0x6d, 0x0f, 0x07, 0x14, 0x00, 0x00, 0x00, 0xf0, 0x6f, 0x10,
    0x02, 0x00, 0x01, 0xa5, 0x8c, 0xa9, 0xbd, 0x00, 0x00, 0x00, 0x00, 0x49, 0x45, 0x4e, 0x44, 0xae,
    0x42, 0x60, 0x82,
];

const BASE: u64 = 0x4943_4f4e_0000_0000;

fn app(bundle_id: &str, icon: Option<&str>) -> CatalogApp {
    CatalogApp {
        bundle_id: String::from(bundle_id),
        name: String::from(bundle_id),
        version: String::from("1.0"),
        developer: String::new(),
        description: String::new(),
        subtitle: None,
        category: String::new(),
        icon: icon.map(String::from),
    }
}

fn shop() -> Storefront {
    let section = |apps| StorefrontSection { title: String::from("Apps"), subtitle: None, apps };
    Storefront {
        sections: vec![
            section(vec![app("a", None), app("b", Some("https://x/b"))]),
            section(vec![app("a", Some("https://x/a")), app("b", Some("https://x/b2"))]),
            section(vec![app("a", Some("https://x/a2")), app("c", Some("http://x/c"))]),
        ],
        categories: Vec::new(),
    }
}

fn request(request_id: u64, bundle_id: &str) -> IconRequest {
    IconRequest {
        request_id,
        bundle_id: String::from(bundle_id),
        url: String::from("https://x/i"),
    }
}

fn book(loaded: &[(&str, u8)], pending: &[(u64, &str)]) -> IconBook<u8> {
    IconBook {
        loaded: loaded
            .iter()
            .map(|(id, image)| LoadedIcon { bundle_id: String::from(*id), image: *image })
            .collect(),
        pending: pending.iter().map(|(id, bundle)| (*id, String::from(*bundle))).collect(),
    }
}

fn icons(book: &IconBook<u8>) -> Vec<(&str, u8)> {
    book.loaded.iter().map(|icon| (icon.bundle_id.as_str(), icon.image)).collect()
}

fn waiting<I>(book: &IconBook<I>) -> Vec<(u64, &str)> {
    book.pending.iter().map(|(id, bundle)| (*id, bundle.as_str())).collect()
}

#[test]
fn pictures_are_decoded() {
    assert_eq!(decode_icon(SMALL).expect("picture").dimensions(), (2, 1));
    assert_eq!(decode_icon(OTHER).expect("picture").dimensions(), (3, 2));
    assert!(decode_icon(b"no picture").is_none());
    assert!(decode_icon(&[]).is_none());
}

#[test]
fn pictures_have_to_be_small_enough() {
    assert_eq!(decode_icon(WIDEST).expect("picture").dimensions(), (2048, 1));
    assert!(decode_icon(TOO_WIDE).is_none());
    assert!(decode_icon(TOO_TALL).is_none());
    assert_eq!(accept_icon(Some(('x', 2048, 2048))), Some('x'));
    assert_eq!(accept_icon(Some(('x', 2049, 1))), None);
    assert_eq!(accept_icon(Some(('x', 1, 2049))), None);
    assert_eq!(accept_icon::<char>(None), None);
}

#[test]
fn first_icon_of_every_app_is_asked_for() {
    let storefront = shop();
    let requests: Vec<(u64, String, String)> = icon_requests(Some(&storefront))
        .into_iter()
        .map(|request| (request.request_id, request.bundle_id, request.url))
        .collect();
    let wanted = [("b", "https://x/b"), ("a", "https://x/a"), ("c", "http://x/c")];
    assert_eq!(requests.len(), 3);
    for (i, (bundle_id, url)) in wanted.iter().enumerate() {
        assert_eq!(
            requests[i],
            (BASE + i as u64 + 1, String::from(*bundle_id), String::from(*url))
        );
    }
    assert!(icon_requests(None).is_empty());
}

#[test]
fn started_requests_are_recorded() {
    let book = start_icon_requests(vec![
        (request(1, "a"), Ok(DataRequest::Pending)),
        (request(2, "b"), Ok(DataRequest::Ready(SMALL.to_vec()))),
        (request(3, "c"), Ok(DataRequest::Ready(TOO_WIDE.to_vec()))),
        (request(4, "d"), Err(ApiError::Protocol)),
        (request(5, "e"), Ok(DataRequest::Pending)),
    ]);
    assert_eq!(waiting(&book), [(1, "a"), (5, "e")]);
    assert_eq!(book.loaded.len(), 1);
    assert_eq!(book.loaded[0].bundle_id, "b");
    assert_eq!(book.loaded[0].image.dimensions(), (2, 1));
}

#[test]
fn finished_requests_bring_icons() {
    let mut book = start_icon_requests::<ApiError>(vec![
        (request(1, "a"), Ok(DataRequest::Pending)),
        (request(2, "b"), Ok(DataRequest::Ready(SMALL.to_vec()))),
        (request(3, "c"), Ok(DataRequest::Pending)),
        (request(4, "d"), Ok(DataRequest::Pending)),
    ]);
    assert!(!handle_platform_message::<ApiError>(&mut book, None));
    assert!(!handle_platform_message::<ApiError>(&mut book, Some((9, Ok(SMALL.to_vec())))));
    assert_eq!(waiting(&book), [(1, "a"), (3, "c"), (4, "d")]);

    assert!(handle_platform_message::<ApiError>(&mut book, Some((1, Ok(OTHER.to_vec())))));
    assert_eq!(waiting(&book), [(4, "d"), (3, "c")]);
    assert_eq!(loaded_icon(&book.loaded, "a").expect("icon").dimensions(), (3, 2));
    assert!(!handle_platform_message::<ApiError>(&mut book, Some((1, Ok(OTHER.to_vec())))));

    assert!(handle_platform_message(&mut book, Some((3, Err(ApiError::Truncated)))));
    assert!(handle_platform_message::<ApiError>(&mut book, Some((4, Ok(TOO_TALL.to_vec())))));
    assert!(book.pending.is_empty());
    assert_eq!(book.loaded.len(), 2);
}

#[test]
fn new_icon_takes_the_place_of_the_old_one() {
    let mut book = book(&[("a", 1), ("b", 2)], &[(10, "b"), (11, "c"), (12, "a")]);
    assert!(book.settle(10, Some(20)));
    assert_eq!(icons(&book), [("a", 1), ("b", 20)]);
    assert_eq!(waiting(&book), [(12, "a"), (11, "c")]);
    assert!(book.settle(11, Some(3)));
    assert_eq!(icons(&book), [("a", 1), ("b", 20), ("c", 3)]);
    assert!(book.settle(12, None));
    assert!(!book.settle(12, Some(9)));
    assert_eq!(icons(&book), [("a", 1), ("b", 20), ("c", 3)]);
    assert_eq!(loaded_icon(&book.loaded, "b"), Some(&20));
    assert_eq!(loaded_icon(&book.loaded, "z"), None);
}

#[test]
fn answers_of_unknown_requests_change_nothing() {
    let mut empty: IconBook<u8> = IconBook::empty();
    assert!(!empty.settle(1, Some(1)));
    assert!(empty.loaded.is_empty() && empty.pending.is_empty());
    empty.record::<ApiError>(request(1, "a"), Ok(DataRequest::Ready(Some(4))));
    empty.record::<ApiError>(request(2, "b"), Ok(DataRequest::Ready(None)));
    empty.record(request(3, "c"), Err(ApiError::Protocol));
    empty.record::<ApiError>(request(4, "d"), Ok(DataRequest::Pending));
    assert_eq!(icons(&empty), [("a", 4)]);
    assert_eq!(waiting(&empty), [(4, "d")]);
}
