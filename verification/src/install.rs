//! The installation of an app, step by step.
//!
//! An [`Installation`] decides and never waits: it names what is due, takes what came of it, and
//! in the end holds the outcome. The package of the app's release is downloaded, put into a
//! temporary file, handed to the package service where it is what the release advertises, and
//! removed whatever came of that.

use vstd::prelude::*;

use crate::api::Resource;
use crate::catalog::ReleaseResponse;
use crate::package;
use crate::package::{Download, PackageDownload, PackageError};
use crate::text;

verus! {

/// Why an app is not installed.
#[derive(Debug)]
pub enum InstallError {
    /// A request has no usable answer, for the reason given.
    Request(String),
    /// The package is not what its release advertises.
    Package(PackageError),
    /// The temporary file cannot be used, for the reason given.
    File(String),
    /// The package service did not take the package, for the reason given.
    Service(String),
}

/// What came of a step.
pub enum Event {
    /// The answer to the request with this number, which asked for the release.
    Release(u64, Result<ReleaseResponse, String>),
    /// The answer to the request with this number, which asked for a part of the package.
    Part(u64, Result<Vec<u8>, String>),
    /// The package is in the temporary file, which has this SHA-256 digest in base sixteen.
    Stored(Result<String, String>),
    /// What the package service says of the temporary file.
    HandedOver(Result<(), String>),
    /// The temporary file is gone.
    Removed,
}

/// What a caller does next with an installation.
pub enum InstallAction<'a> {
    /// Ask for the release of the app.
    RequestRelease { request_id: u64, bundle_id: &'a str },
    /// Ask for a part of the package.
    RequestPart {
        request_id: u64,
        bundle_id: &'a str,
        version: &'a str,
        offset: usize,
        length: usize,
    },
    /// Put the package into the temporary file, and take the digest of that.
    Store { package: &'a Vec<u8> },
    /// Hand the temporary file to the package service.
    HandOver,
    /// Remove the temporary file.
    Remove,
    /// Nothing: the outcome is there.
    Finish,
}

/// Where an installation stands.
pub enum InstallPhase {
    /// The release is asked for.
    Asking,
    /// More of the package is due.
    Downloading(Download),
    /// All of the package has come, and the temporary file is to be written.
    Storing(Download),
    /// The temporary file has this digest, and the package service is to have it.
    HandingOver { download: Download, digest: Seq<char> },
    /// The outcome is known, and the temporary file is to be removed.
    Removing(Result<(), InstallError>),
    /// The installation is over.
    Finished(Result<(), InstallError>),
}

/// An installation, as a value.
pub struct InstallState {
    pub request_id: u64,
    pub bundle_id: Seq<char>,
    pub phase: InstallPhase,
}

/// The start of an installation: nothing is known of the app but its bundle identifier.
pub open spec fn install_start(request_id: u64, bundle_id: Seq<char>) -> InstallState {
    InstallState { request_id, bundle_id, phase: InstallPhase::Asking }
}

impl InstallState {
    /// The same installation in another phase.
    pub open spec fn at(self, phase: InstallPhase) -> InstallState {
        InstallState { phase, ..self }
    }

    /// The installation when it fails with nothing to be removed.
    pub open spec fn failed(self, error: InstallError) -> InstallState {
        self.at(InstallPhase::Finished(Err(error)))
    }

    /// The installation after the release was asked for.
    pub open spec fn behind_release(self, answer: Result<ReleaseResponse, String>) -> InstallState {
        match answer {
            Err(reason) => self.failed(InstallError::Request(reason)),
            Ok(release) => if package::acceptable_size(release.size) {
                self.at(InstallPhase::Downloading(Download { release, received: Seq::empty() }))
            } else {
                self.failed(InstallError::Package(PackageError::UnacceptableSize))
            },
        }
    }

    /// The installation after a part of the package was asked for.
    pub open spec fn behind_part(
        self,
        download: Download,
        answer: Result<Vec<u8>, String>,
    ) -> InstallState {
        match answer {
            Err(reason) => self.failed(InstallError::Request(reason)),
            Ok(part) => if part@.len() != download.next_length() {
                self.failed(InstallError::Package(PackageError::SizeMismatch))
            } else if download.with_part(part@).whole() {
                self.at(InstallPhase::Storing(download.with_part(part@)))
            } else {
                self.at(InstallPhase::Downloading(download.with_part(part@)))
            },
        }
    }

    /// The installation after the temporary file was to be written.
    pub open spec fn behind_store(
        self,
        download: Download,
        stored: Result<String, String>,
    ) -> InstallState {
        match stored {
            Err(reason) => self.at(InstallPhase::Removing(Err(InstallError::File(reason)))),
            Ok(digest) => if download.has_digest(digest@) {
                self.at(InstallPhase::HandingOver { download, digest: digest@ })
            } else {
                self.at(
                    InstallPhase::Removing(
                        Err(InstallError::Package(PackageError::DigestMismatch)),
                    ),
                )
            },
        }
    }

    /// The installation after an event. What is not due changes nothing.
    pub open spec fn advanced(self, event: Event) -> InstallState {
        match (self.phase, event) {
            (InstallPhase::Asking, Event::Release(request_id, answer)) => if request_id
                == self.request_id {
                self.behind_release(answer)
            } else {
                self
            },
            (InstallPhase::Downloading(download), Event::Part(request_id, answer)) => if request_id
                == self.request_id {
                self.behind_part(download, answer)
            } else {
                self
            },
            (InstallPhase::Storing(download), Event::Stored(stored)) => self.behind_store(
                download,
                stored,
            ),
            (InstallPhase::HandingOver { .. }, Event::HandedOver(Ok(_))) => self.at(
                InstallPhase::Removing(Ok(())),
            ),
            (InstallPhase::HandingOver { .. }, Event::HandedOver(Err(reason))) => self.at(
                InstallPhase::Removing(Err(InstallError::Service(reason))),
            ),
            (InstallPhase::Removing(outcome), Event::Removed) => self.at(
                InstallPhase::Finished(outcome),
            ),
            _ => self,
        }
    }
}

/// The phase of an installation, with the download itself.
enum Phase {
    Asking,
    Downloading(PackageDownload),
    Storing(PackageDownload),
    HandingOver { download: PackageDownload, digest: String },
    Removing(Result<(), InstallError>),
    Finished(Result<(), InstallError>),
}

/// The installation of one app.
pub struct Installation {
    request_id: u64,
    bundle_id: String,
    phase: Phase,
}

impl View for Installation {
    type V = InstallState;

    closed spec fn view(&self) -> InstallState {
        InstallState {
            request_id: self.request_id,
            bundle_id: self.bundle_id@,
            phase: match self.phase {
                Phase::Asking => InstallPhase::Asking,
                Phase::Downloading(download) => InstallPhase::Downloading(download@),
                Phase::Storing(download) => InstallPhase::Storing(download@),
                Phase::HandingOver { download, digest } => InstallPhase::HandingOver {
                    download: download@,
                    digest: digest@,
                },
                Phase::Removing(outcome) => InstallPhase::Removing(outcome),
                Phase::Finished(outcome) => InstallPhase::Finished(outcome),
            },
        }
    }
}

impl Installation {
    /// A download is whole exactly when nothing more is asked for, and what is handed over is
    /// what was advertised.
    #[verifier::type_invariant]
    spec fn in_order(self) -> bool {
        match self.phase {
            Phase::Downloading(download) => !download@.whole(),
            Phase::Storing(download) => download@.whole(),
            Phase::HandingOver { download, digest } => download@.whole() && download@.has_digest(
                digest@,
            ),
            _ => true,
        }
    }

    /// Starts the installation of an app. Its requests have the number `request_id`.
    pub fn start(request_id: u64, bundle_id: &str) -> (installation: Installation)
        ensures
            installation@ == install_start(request_id, bundle_id@),
    {
        Installation { request_id, bundle_id: bundle_id.to_owned(), phase: Phase::Asking }
    }

    /// What to do next.
    pub fn action<'a>(&'a self) -> (action: InstallAction<'a>)
        ensures
            match self@.phase {
                InstallPhase::Asking => {
                    action matches InstallAction::RequestRelease { request_id, bundle_id }
                        && request_id == self@.request_id && bundle_id@ == self@.bundle_id
                },
                InstallPhase::Downloading(download) => {
                    &&& !download.whole()
                    &&& action matches InstallAction::RequestPart {
                        request_id,
                        bundle_id,
                        version,
                        offset,
                        length,
                    } && request_id == self@.request_id && bundle_id@ == self@.bundle_id && version@
                        == download.release.version@ && offset == download.received.len() && length
                        == download.next_length() && 1 <= length
                },
                InstallPhase::Storing(download) => {
                    &&& download.whole()
                    &&& action matches InstallAction::Store { package } && package@
                        == download.received
                },
                InstallPhase::HandingOver { download, digest } => {
                    &&& download.whole()
                    &&& download.has_digest(digest)
                    &&& action is HandOver
                },
                InstallPhase::Removing(_) => action is Remove,
                InstallPhase::Finished(_) => action is Finish,
            },
    {
        proof {
            use_type_invariant(self);
        }
        match &self.phase {
            Phase::Asking => InstallAction::RequestRelease {
                request_id: self.request_id,
                bundle_id: self.bundle_id.as_str(),
            },
            Phase::Downloading(download) => match download.next_range() {
                Some((offset, length)) => InstallAction::RequestPart {
                    request_id: self.request_id,
                    bundle_id: self.bundle_id.as_str(),
                    version: download.release().version.as_str(),
                    offset,
                    length,
                },
                None => InstallAction::Finish,
            },
            Phase::Storing(download) => InstallAction::Store { package: download.received() },
            Phase::HandingOver { .. } => InstallAction::HandOver,
            Phase::Removing(_) => InstallAction::Remove,
            Phase::Finished(_) => InstallAction::Finish,
        }
    }

    /// What the answer to the request with a number is awaited as, where it is awaited.
    pub fn awaits(&self, request_id: u64) -> (awaited: Option<Resource>)
        ensures
            awaited == (if request_id != self@.request_id {
                None
            } else {
                match self@.phase {
                    InstallPhase::Asking => Some(Resource::Release),
                    InstallPhase::Downloading(_) => Some(Resource::Package),
                    _ => None,
                }
            }),
    {
        if request_id != self.request_id {
            return None;
        }
        match &self.phase {
            Phase::Asking => Some(Resource::Release),
            Phase::Downloading(_) => Some(Resource::Package),
            _ => None,
        }
    }

    /// Takes what came of a step.
    pub fn advance(self, event: Event) -> (next: Installation)
        ensures
            next@ == self@.advanced(event),
    {
        proof {
            use_type_invariant(&self);
        }
        let request_id = self.request_id;
        let bundle_id = self.bundle_id;
        let phase = match (self.phase, event) {
            (Phase::Asking, Event::Release(number, answer)) => if number != request_id {
                Phase::Asking
            } else {
                match answer {
                    Err(reason) => Phase::Finished(Err(InstallError::Request(reason))),
                    Ok(release) => match PackageDownload::start(release) {
                        Err(error) => Phase::Finished(Err(InstallError::Package(error))),
                        Ok(download) => Phase::Downloading(download),
                    },
                }
            },
            (Phase::Downloading(download), Event::Part(number, answer)) => if number != request_id {
                Phase::Downloading(download)
            } else {
                match answer {
                    Err(reason) => Phase::Finished(Err(InstallError::Request(reason))),
                    Ok(part) => match download.accept(part) {
                        Err(error) => Phase::Finished(Err(InstallError::Package(error))),
                        Ok(download) => match download.next_range() {
                            Some(_) => Phase::Downloading(download),
                            None => Phase::Storing(download),
                        },
                    },
                }
            },
            (Phase::Storing(download), Event::Stored(stored)) => match stored {
                Err(reason) => Phase::Removing(Err(InstallError::File(reason))),
                Ok(digest) => match download.finish(digest.as_str()) {
                    Ok(_) => Phase::HandingOver { download, digest },
                    Err(error) => Phase::Removing(Err(InstallError::Package(error))),
                },
            },
            (Phase::HandingOver { .. }, Event::HandedOver(Ok(_))) => Phase::Removing(Ok(())),
            (Phase::HandingOver { .. }, Event::HandedOver(Err(reason))) => Phase::Removing(
                Err(InstallError::Service(reason)),
            ),
            (Phase::Removing(outcome), Event::Removed) => Phase::Finished(outcome),
            (phase, _) => phase,
        };
        Installation { request_id, bundle_id, phase }
    }

    /// The outcome, once the installation is over.
    pub fn into_outcome(self) -> (outcome: Option<Result<(), InstallError>>)
        ensures
            outcome == match self@.phase {
                InstallPhase::Finished(outcome) => Some(outcome),
                _ => None,
            },
    {
        match self.phase {
            Phase::Finished(outcome) => Some(outcome),
            _ => None,
        }
    }
}

/// The installation after all these events, one after the other.
pub open spec fn run(installation: InstallState, events: Seq<Event>) -> InstallState
    decreases events.len(),
{
    if events.len() == 0 {
        installation
    } else {
        run(installation, events.drop_last()).advanced(events.last())
    }
}

/// The bytes that an event brings as an answer to the request with a number.
pub open spec fn part_data(event: Event, request_id: u64) -> Seq<u8> {
    match event {
        Event::Part(number, Ok(part)) => if number == request_id {
            part@
        } else {
            Seq::empty()
        },
        _ => Seq::empty(),
    }
}

/// The bytes that all these events bring, one after the other.
pub open spec fn parts_data(events: Seq<Event>, request_id: u64) -> Seq<u8>
    decreases events.len(),
{
    if events.len() == 0 {
        Seq::empty()
    } else {
        parts_data(events.drop_last(), request_id) + part_data(events.last(), request_id)
    }
}

/// Whether the event at index `k` brought the release of a download, and the events between that
/// and the one at index `m` brought its bytes.
pub open spec fn brought_by(
    events: Seq<Event>,
    request_id: u64,
    download: Download,
    k: int,
    m: int,
) -> bool {
    &&& 0 <= k < m <= events.len()
    &&& events[k] == Event::Release(request_id, Ok(download.release))
    &&& parts_data(events.subrange(k + 1, m), request_id) == download.received
}

/// Whether these events brought a download: its release first, and then its bytes.
pub open spec fn brought(events: Seq<Event>, request_id: u64, download: Download) -> bool {
    exists|k: int, m: int| #[trigger] brought_by(events, request_id, download, k, m)
}

/// What holds of an installation after any events.
spec fn on_the_way(request_id: u64, installation: InstallState, events: Seq<Event>) -> bool {
    &&& installation.request_id == request_id
    &&& match installation.phase {
        InstallPhase::Downloading(download) => {
            &&& download.in_order()
            &&& !download.whole()
            &&& exists|k: int| #[trigger]
                brought_by(events, request_id, download, k, events.len() as int)
        },
        InstallPhase::Storing(download) => {
            &&& download.in_order()
            &&& download.whole()
            &&& brought(events, request_id, download)
        },
        InstallPhase::HandingOver { download, digest } => {
            &&& download.in_order()
            &&& download.whole()
            &&& download.has_digest(digest)
            &&& brought(events, request_id, download)
        },
        _ => true,
    }
}

proof fn lemma_still_brought(events: Seq<Event>, event: Event, request_id: u64, download: Download)
    requires
        brought(events, request_id, download),
    ensures
        brought(events.push(event), request_id, download),
{
    let (k, m) = choose|k: int, m: int| #[trigger]
        brought_by(events, request_id, download, k, m);
    assert(events.push(event).subrange(k + 1, m) == events.subrange(k + 1, m));
    assert(brought_by(events.push(event), request_id, download, k, m));
}

/// One more event keeps an installation on its way.
proof fn lemma_advance(
    request_id: u64,
    installation: InstallState,
    events: Seq<Event>,
    event: Event,
)
    requires
        on_the_way(request_id, installation, events),
    ensures
        on_the_way(request_id, installation.advanced(event), events.push(event)),
{
    let longer = events.push(event);
    let end = longer.len() as int;
    match installation.phase {
        InstallPhase::Asking => {
            if let InstallPhase::Downloading(download) = installation.advanced(event).phase {
                assert(longer.subrange(end, end) == Seq::<Event>::empty());
                assert(brought_by(longer, request_id, download, end - 1, end));
            }
        },
        InstallPhase::Downloading(download) => {
            let k = choose|k: int| #[trigger]
                brought_by(events, request_id, download, k, events.len() as int);
            let grown = Download {
                release: download.release,
                received: download.received + part_data(event, request_id),
            };
            assert(longer.subrange(k + 1, end).drop_last() == events.subrange(
                k + 1,
                events.len() as int,
            ));
            assert(longer.subrange(k + 1, end).last() == event);
            assert(brought_by(longer, request_id, grown, k, end));
            assert(download.received + Seq::<u8>::empty() == download.received);
        },
        InstallPhase::Storing(download) => lemma_still_brought(events, event, request_id, download),
        InstallPhase::HandingOver { download, .. } => {
            lemma_still_brought(events, event, request_id, download)
        },
        _ => {},
    }
}

proof fn lemma_run(request_id: u64, bundle_id: Seq<char>, events: Seq<Event>)
    ensures
        on_the_way(request_id, run(install_start(request_id, bundle_id), events), events),
    decreases events.len(),
{
    if events.len() > 0 {
        let before = events.drop_last();
        lemma_run(request_id, bundle_id, before);
        lemma_advance(
            request_id,
            run(install_start(request_id, bundle_id), before),
            before,
            events.last(),
        );
        assert(before.push(events.last()) == events);
    }
}

/// Nothing is handed to the package service but what was advertised: the package is the one that
/// the answers brought, of the release that the answer to the same request brought, it has the
/// release's size, and its digest is the release's.
pub proof fn law_only_advertised_packages_are_handed_over(
    request_id: u64,
    bundle_id: Seq<char>,
    events: Seq<Event>,
    download: Download,
    digest: Seq<char>,
)
    requires
        run(install_start(request_id, bundle_id), events).phase == (InstallPhase::HandingOver {
            download,
            digest,
        }),
    ensures
        package::acceptable_size(download.release.size),
        download.received.len() == download.release.size,
        download.has_digest(digest),
        brought(events, request_id, download),
{
    lemma_run(request_id, bundle_id, events);
}

/// The answer that completes the last part decides: the package is then put into the temporary
/// file, and that is handed to the package service exactly when its digest is the advertised one.
pub proof fn law_last_part_decides(
    installation: InstallState,
    download: Download,
    part: Vec<u8>,
    digest: String,
)
    requires
        installation.phase == InstallPhase::Downloading(download),
        part@.len() == download.next_length(),
        download.received.len() + part@.len() == download.release.size,
    ensures
        ({
            let whole = download.with_part(part@);
            let stored = installation.advanced(Event::Part(installation.request_id, Ok(part)));
            let next = stored.advanced(Event::Stored(Ok(digest))).phase;
            &&& stored.phase == InstallPhase::Storing(whole)
            &&& next is HandingOver <==> download.has_digest(digest@)
            &&& next is HandingOver ==> next == (InstallPhase::HandingOver {
                download: whole,
                digest: digest@,
            })
            &&& !(next is HandingOver) ==> next == InstallPhase::Removing(
                Err(InstallError::Package(PackageError::DigestMismatch)),
            )
        }),
{
}

/// Whether there may be a temporary file.
pub open spec fn may_have_file(phase: InstallPhase) -> bool {
    phase is Storing || phase is HandingOver || phase is Removing
}

/// The temporary file is removed after success and failure alike: an installation that came to
/// the point of writing it, and is over, had it removed since, and with the outcome that it ends
/// in.
pub proof fn law_temporary_file_is_removed(installation: InstallState, events: Seq<Event>, j: int)
    requires
        0 <= j <= events.len(),
        may_have_file(run(installation, events.take(j)).phase),
        run(installation, events).phase is Finished,
    ensures
        exists|k: int|
            j <= k < events.len() && run(installation, #[trigger] events.take(k)).phase
                == InstallPhase::Removing(run(installation, events).phase->Finished_0) && events[k]
                is Removed,
    decreases events.len(),
{
    assert(events.take(events.len() as int) == events);
    let before = events.drop_last();
    let last = before.len() as int;
    assert(events.take(last) == before);
    let phase = run(installation, before).phase;
    if phase is Finished {
        assert(before.take(j) == events.take(j));
        law_temporary_file_is_removed(installation, before, j);
        let k = choose|k: int|
            j <= k < before.len() && run(installation, #[trigger] before.take(k)).phase
                == InstallPhase::Removing(run(installation, before).phase->Finished_0) && before[k]
                is Removed;
        assert(before.take(k) == events.take(k));
    } else {
        assert(j <= last);
        assert(events.take(j) == before.take(j));
        lemma_file_stays(installation, before, j);
        assert(events[last] == events.last());
    }
}

/// There may be a temporary file until the installation is over.
proof fn lemma_file_stays(installation: InstallState, events: Seq<Event>, j: int)
    requires
        0 <= j <= events.len(),
        may_have_file(run(installation, events.take(j)).phase),
    ensures
        may_have_file(run(installation, events).phase) || run(installation, events).phase is Finished,
    decreases events.len(),
{
    if j == events.len() {
        assert(events.take(j) == events);
    } else {
        assert(events.drop_last().take(j) == events.take(j));
        lemma_file_stays(installation, events.drop_last(), j);
    }
}

/// An installation succeeds only where the package service took the package: it was handed what
/// was advertised, and said so.
pub proof fn law_success_is_the_services(
    request_id: u64,
    bundle_id: Seq<char>,
    events: Seq<Event>,
)
    requires
        run(install_start(request_id, bundle_id), events).phase == InstallPhase::Finished(Ok(())),
    ensures
        exists|k: int|
            0 <= k < events.len() && run(
                install_start(request_id, bundle_id),
                #[trigger] events.take(k),
            ).phase is HandingOver && events[k] matches Event::HandedOver(Ok(_)),
{
    lemma_success(request_id, bundle_id, events);
}

proof fn lemma_success(request_id: u64, bundle_id: Seq<char>, events: Seq<Event>)
    requires
        ({
            let phase = run(install_start(request_id, bundle_id), events).phase;
            phase == InstallPhase::Finished(Ok(())) || phase == InstallPhase::Removing(Ok(()))
        }),
    ensures
        exists|k: int|
            0 <= k < events.len() && run(
                install_start(request_id, bundle_id),
                #[trigger] events.take(k),
            ).phase is HandingOver && events[k] matches Event::HandedOver(Ok(_)),
    decreases events.len(),
{
    let start = install_start(request_id, bundle_id);
    let before = events.drop_last();
    let last = before.len() as int;
    assert(events.take(last) == before);
    assert(events[last] == events.last());
    if !(run(start, before).phase is HandingOver) {
        lemma_success(request_id, bundle_id, before);
        let k = choose|k: int|
            0 <= k < before.len() && run(start, #[trigger] before.take(k)).phase is HandingOver
                && before[k] matches Event::HandedOver(Ok(_));
        assert(before.take(k) == events.take(k));
    }
}

/// A bound on the steps that an installation can still take.
pub open spec fn steps_left(installation: InstallState) -> int {
    match installation.phase {
        InstallPhase::Asking => package::MAX_PACKAGE_BYTES + 4,
        InstallPhase::Downloading(download) => download.release.size - download.received.len() + 3,
        InstallPhase::Storing(_) => 3,
        InstallPhase::HandingOver { .. } => 2,
        InstallPhase::Removing(_) => 1,
        InstallPhase::Finished(_) => 0,
    }
}

/// No installation goes on for ever: whatever came before, an event changes nothing or brings the
/// installation nearer to its end.
pub proof fn law_steps_lead_to_the_end(
    request_id: u64,
    bundle_id: Seq<char>,
    events: Seq<Event>,
    event: Event,
)
    ensures
        ({
            let before = run(install_start(request_id, bundle_id), events);
            let after = run(install_start(request_id, bundle_id), events.push(event));
            &&& 0 <= steps_left(after) <= steps_left(before)
            &&& after == before || steps_left(after) < steps_left(before)
        }),
{
    lemma_run(request_id, bundle_id, events);
    lemma_run(request_id, bundle_id, events.push(event));
    assert(events.push(event).drop_last() == events);
}

/// Parts as bytes.
pub open spec fn bytes_of(parts: Seq<Vec<u8>>) -> Seq<Seq<u8>> {
    parts.map_values(|part: Vec<u8>| part@)
}

/// The events of a download without fault: the release comes, then every part.
pub open spec fn download_events(
    request_id: u64,
    release: ReleaseResponse,
    parts: Seq<Vec<u8>>,
) -> Seq<Event> {
    seq![Event::Release(request_id, Ok(release))] + parts.map_values(
        |part: Vec<u8>| Event::Part(request_id, Ok(part)),
    )
}

/// What is advertised is installed: where the release can be had, its parts come as asked for,
/// none of them empty, and make up its size, the temporary file has its digest, and the package
/// service takes it, the package service is handed the bytes of the parts, and the installation
/// succeeds.
pub proof fn law_advertised_package_is_installed(
    request_id: u64,
    bundle_id: Seq<char>,
    release: ReleaseResponse,
    parts: Seq<Vec<u8>>,
    digest: String,
)
    requires
        package::acceptable_size(release.size),
        package::parts_fit(release.size as nat, bytes_of(parts)),
        forall|k: int| 0 <= k < parts.len() ==> (#[trigger] parts[k])@.len() > 0,
        package::all_parts(bytes_of(parts)).len() == release.size,
        (Download { release, received: Seq::empty() }).has_digest(digest@),
    ensures
        ({
            let start = install_start(request_id, bundle_id);
            let stored = download_events(request_id, release, parts).push(
                Event::Stored(Ok(digest)),
            );
            &&& run(start, stored).phase == (InstallPhase::HandingOver {
                download: Download { release, received: package::all_parts(bytes_of(parts)) },
                digest: digest@,
            })
            &&& run(start, stored.push(Event::HandedOver(Ok(()))).push(Event::Removed)).phase
                == InstallPhase::Finished(Ok(()))
        }),
{
    let start = install_start(request_id, bundle_id);
    let download = download_events(request_id, release, parts);
    let stored = download.push(Event::Stored(Ok(digest)));
    let handed = stored.push(Event::HandedOver(Ok(())));
    lemma_parts_come(request_id, bundle_id, release, parts);
    assert(stored.drop_last() == download);
    assert(run(start, stored) == run(start, download).advanced(stored.last()));
    assert(handed.drop_last() == stored);
    assert(run(start, handed).phase == InstallPhase::Removing(Ok(())));
    assert(handed.push(Event::Removed).drop_last() == handed);
}

/// A download without fault goes on until the package is whole.
proof fn lemma_parts_come(
    request_id: u64,
    bundle_id: Seq<char>,
    release: ReleaseResponse,
    parts: Seq<Vec<u8>>,
)
    requires
        package::acceptable_size(release.size),
        package::parts_fit(release.size as nat, bytes_of(parts)),
        forall|k: int| 0 <= k < parts.len() ==> (#[trigger] parts[k])@.len() > 0,
    ensures
        ({
            let start = install_start(request_id, bundle_id);
            let download = Download { release, received: package::all_parts(bytes_of(parts)) };
            run(start, download_events(request_id, release, parts)) == start.at(
                if download.whole() {
                    InstallPhase::Storing(download)
                } else {
                    InstallPhase::Downloading(download)
                },
            )
        }),
    decreases parts.len(),
{
    let start = install_start(request_id, bundle_id);
    let events = download_events(request_id, release, parts);
    if parts.len() == 0 {
        assert(events.drop_last() == Seq::<Event>::empty());
        assert(run(start, events.drop_last()) == start);
        assert(bytes_of(parts) == Seq::<Seq<u8>>::empty());
    } else {
        let front = parts.drop_last();
        let all = bytes_of(parts);
        assert(bytes_of(front) == all.drop_last());
        assert(all.take(all.len() - 1) == all.drop_last());
        assert(all[all.len() - 1] == parts.last()@);
        assert forall|k: int| #![trigger bytes_of(front)[k]] 0 <= k < front.len() implies bytes_of(
            front,
        )[k].len() == package::part_length(
            release.size as nat,
            package::all_parts(bytes_of(front).take(k)).len(),
        ) by {
            assert(bytes_of(front)[k] == all[k]);
            assert(bytes_of(front).take(k) == all.take(k));
        }
        assert forall|k: int| 0 <= k < front.len() implies (#[trigger] front[k])@.len() > 0 by {
            assert(front[k] == parts[k]);
        }
        lemma_parts_come(request_id, bundle_id, release, front);
        assert(events.drop_last() == download_events(request_id, release, front));
        assert(parts[parts.len() - 1]@.len() > 0);
    }
}

/// A package whose file has the advertised digest is handed over: the two texts are the same, of
/// whatever length, or differ in nothing but the case of ASCII letters. With any other digest the
/// file is removed and the package refused.
pub proof fn law_advertised_digest_is_handed_over(
    installation: InstallState,
    download: Download,
    digest: String,
)
    requires
        installation.phase == InstallPhase::Storing(download),
    ensures
        ({
            let next = installation.advanced(Event::Stored(Ok(digest))).phase;
            let handed = InstallPhase::HandingOver { download, digest: digest@ };
            let advertised = download.release.sha256@;
            &&& digest@ == advertised ==> next == handed
            &&& text::lowered(digest@) == text::lowered(advertised) ==> next == handed
            &&& text::lowered(digest@) != text::lowered(advertised) ==> next
                == InstallPhase::Removing(
                Err(InstallError::Package(PackageError::DigestMismatch)),
            )
        }),
{
}

/// An installation starts by asking for the release of its app, under its number.
pub proof fn law_release_is_asked_for_first(request_id: u64, bundle_id: Seq<char>)
    ensures
        install_start(request_id, bundle_id).phase is Asking,
        install_start(request_id, bundle_id).request_id == request_id,
        install_start(request_id, bundle_id).bundle_id == bundle_id,
{
}

/// The answer with the release starts the download of that release where its size is from one
/// byte to two hundred and fifty-six mebibytes; else, or without an answer, the installation is
/// over.
pub proof fn law_release_starts_the_download(
    installation: InstallState,
    release: ReleaseResponse,
    reason: String,
)
    requires
        installation.phase is Asking,
    ensures
        ({
            let next = installation.advanced(
                Event::Release(installation.request_id, Ok(release)),
            ).phase;
            &&& 0 < release.size <= 256 * 0x10_0000 ==> next == InstallPhase::Downloading(
                Download { release, received: Seq::empty() },
            )
            &&& !(0 < release.size <= 256 * 0x10_0000) ==> next == InstallPhase::Finished(
                Err(InstallError::Package(PackageError::UnacceptableSize)),
            )
            &&& installation.advanced(Event::Release(installation.request_id, Err(reason))).phase
                == InstallPhase::Finished(Err(InstallError::Request(reason)))
        }),
{
}

/// A part is taken where it is as long as all that is left, or two mebibytes where more is left.
/// It is put behind what has come; when that is as long as advertised the package is stored, and
/// until then more is asked for. A part of another length, or none, ends the installation.
pub proof fn law_part_goes_behind_the_others(
    installation: InstallState,
    download: Download,
    part: Vec<u8>,
    reason: String,
)
    requires
        installation.phase == InstallPhase::Downloading(download),
        download.received.len() < download.release.size,
    ensures
        ({
            let left = download.release.size - download.received.len();
            let asked: int = if left < 0x20_0000 {
                left
            } else {
                0x20_0000
            };
            let longer = Download {
                release: download.release,
                received: download.received + part@,
            };
            let next = installation.advanced(Event::Part(installation.request_id, Ok(part))).phase;
            &&& part@.len() == asked && asked == left ==> next == InstallPhase::Storing(longer)
            &&& part@.len() == asked && asked < left ==> next == InstallPhase::Downloading(longer)
            &&& part@.len() != asked ==> next == InstallPhase::Finished(
                Err(InstallError::Package(PackageError::SizeMismatch)),
            )
            &&& installation.advanced(Event::Part(installation.request_id, Err(reason))).phase
                == InstallPhase::Finished(Err(InstallError::Request(reason)))
        }),
{
}

/// A file that cannot be written is removed for that reason, one that was handed over is removed
/// with what the package service said, and the removal ends the installation with the outcome
/// that it had.
pub proof fn law_every_file_is_removed(
    storing: InstallState,
    handing: InstallState,
    removing: InstallState,
    reason: String,
)
    requires
        storing.phase is Storing,
        handing.phase is HandingOver,
        removing.phase is Removing,
    ensures
        storing.advanced(Event::Stored(Err(reason))).phase == InstallPhase::Removing(
            Err(InstallError::File(reason)),
        ),
        handing.advanced(Event::HandedOver(Ok(()))).phase == InstallPhase::Removing(Ok(())),
        handing.advanced(Event::HandedOver(Err(reason))).phase == InstallPhase::Removing(
            Err(InstallError::Service(reason)),
        ),
        removing.advanced(Event::Removed).phase == InstallPhase::Finished(
            removing.phase->Removing_0,
        ),
{
}

/// Only what is due changes an installation: an answer to the request with its number, and of each
/// step what comes of that step. Its number and its app never change.
pub proof fn law_only_what_is_due_changes_anything(installation: InstallState, event: Event)
    ensures
        ({
            let next = installation.advanced(event);
            let due = match event {
                Event::Release(number, _) => installation.phase is Asking && number
                    == installation.request_id,
                Event::Part(number, _) => installation.phase is Downloading && number
                    == installation.request_id,
                Event::Stored(_) => installation.phase is Storing,
                Event::HandedOver(_) => installation.phase is HandingOver,
                Event::Removed => installation.phase is Removing,
            };
            &&& !due ==> next == installation
            &&& next.request_id == installation.request_id
            &&& next.bundle_id == installation.bundle_id
        }),
{
}

/// Events are taken one after the other.
pub proof fn law_events_come_in_turn(installation: InstallState, events: Seq<Event>, event: Event)
    ensures
        run(installation, Seq::empty()) == installation,
        run(installation, events.push(event)) == run(installation, events).advanced(event),
{
    assert(events.push(event).drop_last() == events);
}

} // verus!
