use appstore::api::Resource;
use appstore::catalog::ReleaseResponse;
use appstore::install::{Event, InstallAction, InstallError, Installation};
use appstore::package::PackageError;

const CHUNK: usize = 2 * 1024 * 1024;

fn release(size: u64) -> ReleaseResponse {
    ReleaseResponse { version: String::from("1.2"), size, sha256: String::from("AB12") }
}

fn asked(size: u64) -> Installation {
    Installation::start(7, "org.example").advance(Event::Release(7, Ok(release(size))))
}

fn downloaded() -> Installation {
    asked(3).advance(Event::Part(7, Ok(vec![1, 2, 3])))
}

fn checked(digest: &str) -> Installation {
    downloaded().advance(Event::Stored(Ok(String::from(digest))))
}

fn outcome(installation: Installation) -> Result<(), InstallError> {
    match installation.into_outcome() {
        Some(outcome) => outcome,
        None => panic!("the installation is not over"),
    }
}

#[test]
fn advertised_package_is_installed() {
    let size = CHUNK + 5;
    let mut installation = Installation::start(7, "org.example");
    assert!(matches!(
        installation.action(),
        InstallAction::RequestRelease { request_id: 7, bundle_id: "org.example" }
    ));
    assert_eq!(installation.awaits(7), Some(Resource::Release));
    assert_eq!(installation.awaits(8), None);
    installation = installation.advance(Event::Release(7, Ok(release(size as u64))));
    let mut ranges = Vec::new();
    while let InstallAction::RequestPart { request_id, bundle_id, version, offset, length } =
        installation.action()
    {
        assert_eq!((request_id, bundle_id, version), (7, "org.example", "1.2"));
        ranges.push((offset, length));
        let part: Vec<u8> = (0..length).map(|i| ((offset + i) % 251) as u8).collect();
        assert_eq!(installation.awaits(7), Some(Resource::Package));
        installation = installation.advance(Event::Part(7, Ok(part)));
    }
    assert_eq!(ranges, [(0, CHUNK), (CHUNK, 5)]);
    match installation.action() {
        InstallAction::Store { package } => {
            assert_eq!(package.len(), size);
            assert!(package.iter().enumerate().all(|(i, byte)| *byte == (i % 251) as u8));
        }
        _ => panic!("the package is stored"),
    }
    assert_eq!(installation.awaits(7), None);
    installation = installation.advance(Event::Stored(Ok(String::from("ab12"))));
    assert!(matches!(installation.action(), InstallAction::HandOver));
    installation = installation.advance(Event::HandedOver(Ok(())));
    assert!(matches!(installation.action(), InstallAction::Remove));
    installation = installation.advance(Event::Removed);
    assert!(matches!(installation.action(), InstallAction::Finish));
    assert!(outcome(installation).is_ok());
}

#[test]
fn only_the_advertised_digest_is_handed_over() {
    assert!(matches!(checked("AB12").action(), InstallAction::HandOver));
    for digest in ["ab13", "", "ab12 "] {
        let installation = checked(digest);
        assert!(matches!(installation.action(), InstallAction::Remove));
        assert!(matches!(
            outcome(installation.advance(Event::Removed)),
            Err(InstallError::Package(PackageError::DigestMismatch))
        ));
    }
}

#[test]
fn temporary_file_is_removed_after_every_failure() {
    let unwritten = downloaded().advance(Event::Stored(Err(String::from("disk"))));
    assert!(matches!(unwritten.action(), InstallAction::Remove));
    assert!(matches!(
        outcome(unwritten.advance(Event::Removed)),
        Err(InstallError::File(reason)) if reason == "disk"
    ));
    let refused = checked("ab12").advance(Event::HandedOver(Err(String::from("manifest"))));
    assert!(matches!(refused.action(), InstallAction::Remove));
    assert!(refused.into_outcome().is_none());
    let refused = checked("ab12")
        .advance(Event::HandedOver(Err(String::from("manifest"))))
        .advance(Event::Removed);
    assert!(matches!(outcome(refused), Err(InstallError::Service(reason)) if reason == "manifest"));
}

#[test]
fn download_that_fails_leaves_nothing_behind() {
    let unavailable =
        Installation::start(7, "a").advance(Event::Release(7, Err(String::from("gone"))));
    assert!(matches!(outcome(unavailable), Err(InstallError::Request(reason)) if reason == "gone"));
    let lost = asked(3).advance(Event::Part(7, Err(String::from("lost"))));
    assert!(matches!(outcome(lost), Err(InstallError::Request(reason)) if reason == "lost"));
    assert!(matches!(
        outcome(asked(0)),
        Err(InstallError::Package(PackageError::UnacceptableSize))
    ));
    assert!(matches!(
        outcome(asked(3).advance(Event::Part(7, Ok(vec![1, 2])))),
        Err(InstallError::Package(PackageError::SizeMismatch))
    ));
}

#[test]
fn what_is_not_due_changes_nothing() {
    let installation = Installation::start(7, "a")
        .advance(Event::Release(8, Ok(release(3))))
        .advance(Event::Part(7, Ok(vec![1])))
        .advance(Event::Stored(Ok(String::from("ab12"))))
        .advance(Event::HandedOver(Ok(())))
        .advance(Event::Removed);
    assert!(matches!(installation.action(), InstallAction::RequestRelease { .. }));
    let installation = asked(3).advance(Event::Part(8, Ok(vec![1, 2, 3])));
    assert!(matches!(installation.action(), InstallAction::RequestPart { offset: 0, .. }));
    let installation = checked("ab12").advance(Event::Removed).advance(Event::Part(7, Ok(vec![9])));
    assert!(matches!(installation.action(), InstallAction::HandOver));
}
