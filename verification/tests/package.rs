use appstore::catalog::ReleaseResponse;
use appstore::package::{PackageDownload, PackageError, MAX_PACKAGE_BYTES};

const CHUNK: usize = 2 * 1024 * 1024;

fn release(size: u64) -> ReleaseResponse {
    ReleaseResponse { version: String::from("1.0"), size, sha256: String::from("AB12") }
}

fn started(size: u64) -> PackageDownload {
    match PackageDownload::start(release(size)) {
        Ok(download) => download,
        Err(error) => panic!("{error:?}"),
    }
}

fn error<T>(result: Result<T, PackageError>) -> Option<PackageError> {
    result.err()
}

#[test]
fn download_comes_in_bounded_parts() {
    let size = 2 * CHUNK + 3;
    let mut download = started(size as u64);
    let mut ranges = Vec::new();
    while let Some((offset, length)) = download.next_range() {
        ranges.push((offset, length));
        let part: Vec<u8> = (0..length).map(|i| ((offset + i) % 251) as u8).collect();
        download = match download.accept(part) {
            Ok(next) => next,
            Err(error) => panic!("{error:?}"),
        };
    }
    assert_eq!(ranges, [(0, CHUNK), (CHUNK, CHUNK), (2 * CHUNK, 3)]);
    assert_eq!(download.received().len(), size);
    assert_eq!(download.release().version, "1.0");
    let package = download.finish("ab12").expect("package");
    assert_eq!(package.len(), size);
    assert!(package.iter().enumerate().all(|(i, byte)| *byte == (i % 251) as u8));
}

#[test]
fn size_has_to_be_acceptable() {
    for size in [0, MAX_PACKAGE_BYTES as u64 + 1, u64::MAX] {
        assert_eq!(
            error(PackageDownload::start(release(size))),
            Some(PackageError::UnacceptableSize)
        );
    }
    assert_eq!(started(MAX_PACKAGE_BYTES as u64).next_range(), Some((0, CHUNK)));
    assert_eq!(started(1).next_range(), Some((0, 1)));
}

#[test]
fn part_has_to_have_the_length_asked_for() {
    for part in [vec![], vec![1, 2], vec![1, 2, 3, 4]] {
        assert_eq!(error(started(3).accept(part)), Some(PackageError::SizeMismatch));
    }
}

#[test]
fn package_has_to_be_the_advertised_one() {
    assert_eq!(error(started(3).finish("ab12")), Some(PackageError::SizeMismatch));
    let whole = || match started(3).accept(vec![1, 2, 3]) {
        Ok(download) => download,
        Err(error) => panic!("{error:?}"),
    };
    assert_eq!(error(whole().finish("ab13")), Some(PackageError::DigestMismatch));
    assert_eq!(error(whole().finish("")), Some(PackageError::DigestMismatch));
    assert_eq!(*whole().finish("aB12").expect("package"), [1, 2, 3]);
}
