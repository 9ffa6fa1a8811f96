//! The download of a package: part by part, and nothing is accepted that was not advertised.

use vstd::prelude::*;

use crate::api::MAX_PACKAGE_CHUNK_BYTES;
use crate::catalog::ReleaseResponse;
use crate::text;

verus! {

/// The largest package that the store downloads.
pub const MAX_PACKAGE_BYTES: usize = 256 * 1024 * 1024;

/// Why a package is not accepted.
#[derive(Clone, Copy, Debug, PartialEq, Eq, Structural)]
pub enum PackageError {
    /// The advertised package is empty, or larger than the store downloads.
    UnacceptableSize,
    /// The package does not have the advertised size.
    SizeMismatch,
    /// The package does not have the advertised digest.
    DigestMismatch,
}

/// The package of an advertised release, and what has come of it.
pub struct PackageDownload {
    release: ReleaseResponse,
    received: Vec<u8>,
}

/// A download, as a value.
pub struct Download {
    pub release: ReleaseResponse,
    pub received: Seq<u8>,
}

impl View for PackageDownload {
    type V = Download;

    closed spec fn view(&self) -> Download {
        Download { release: self.release, received: self.received@ }
    }
}

/// Whether the store downloads a package of an advertised size.
pub open spec fn acceptable_size(size: u64) -> bool {
    1 <= size <= MAX_PACKAGE_BYTES
}

impl Download {
    /// Whether a download is in order: it is of an acceptable size, and no more has come than was
    /// advertised.
    pub open spec fn in_order(self) -> bool {
        acceptable_size(self.release.size) && self.received.len() <= self.release.size
    }

    /// The length of the next part: what is left, but never more than the store accepts at once.
    pub open spec fn next_length(self) -> int {
        part_length(self.release.size as nat, self.received.len())
    }

    /// The download after one more part.
    pub open spec fn with_part(self, part: Seq<u8>) -> Download {
        Download { release: self.release, received: self.received + part }
    }

    /// Whether all of the package has come.
    pub open spec fn whole(self) -> bool {
        self.received.len() == self.release.size
    }

    /// Whether a digest is the advertised one. The case of letters does not matter.
    pub open spec fn has_digest(self, digest: Seq<char>) -> bool {
        text::lowered(digest) == text::lowered(self.release.sha256@)
    }
}

/// The length of the next part of a package of `size` bytes, of which `received` have come.
pub open spec fn part_length(size: nat, received: nat) -> int {
    vstd::math::min(size - received, MAX_PACKAGE_CHUNK_BYTES as int)
}

impl PackageDownload {
    /// The advertised size is acceptable, and no more has come than was advertised.
    #[verifier::type_invariant]
    spec fn fits(self) -> bool {
        1 <= self.release.size <= MAX_PACKAGE_BYTES && self.received@.len() <= self.release.size
    }

    /// Starts the download of a release.
    pub fn start(release: ReleaseResponse) -> (download: Result<PackageDownload, PackageError>)
        ensures
            match download {
                Ok(download) => {
                    &&& acceptable_size(release.size)
                    &&& download@ == (Download { release, received: Seq::empty() })
                },
                Err(error) => !acceptable_size(release.size) && error
                    == PackageError::UnacceptableSize,
            },
    {
        if release.size == 0 || release.size > MAX_PACKAGE_BYTES as u64 {
            return Err(PackageError::UnacceptableSize);
        }
        Ok(PackageDownload { release, received: Vec::new() })
    }

    /// The offset and the length of the next part, until all parts have come.
    pub fn next_range(&self) -> (range: Option<(usize, usize)>)
        ensures
            self@.in_order(),
            match range {
                Some((offset, length)) => {
                    &&& !self@.whole()
                    &&& offset == self@.received.len()
                    &&& length == self@.next_length()
                    &&& 1 <= length <= MAX_PACKAGE_CHUNK_BYTES
                },
                None => self@.whole(),
            },
    {
        proof {
            use_type_invariant(self);
        }
        let offset: usize = self.received.len();
        let size: usize = self.release.size as usize;
        if offset == size {
            return None;
        }
        let left: usize = size - offset;
        let length: usize = if left <= MAX_PACKAGE_CHUNK_BYTES {
            left
        } else {
            MAX_PACKAGE_CHUNK_BYTES
        };
        Some((offset, length))
    }

    /// Takes the next part. It has to be of the length that was asked for.
    pub fn accept(self, part: Vec<u8>) -> (next: Result<PackageDownload, PackageError>)
        ensures
            match next {
                Ok(next) => {
                    &&& part@.len() == self@.next_length()
                    &&& next@ == self@.with_part(part@)
                },
                Err(error) => part@.len() != self@.next_length() && error
                    == PackageError::SizeMismatch,
            },
    {
        proof {
            use_type_invariant(&self);
        }
        let left: usize = self.release.size as usize - self.received.len();
        let length: usize = if left <= MAX_PACKAGE_CHUNK_BYTES {
            left
        } else {
            MAX_PACKAGE_CHUNK_BYTES
        };
        if part.len() != length {
            return Err(PackageError::SizeMismatch);
        }
        let release = self.release;
        let mut received = self.received;
        let mut part = part;
        received.append(&mut part);
        Ok(PackageDownload { release, received })
    }

    /// The bytes that have come.
    pub fn received(&self) -> (bytes: &Vec<u8>)
        ensures
            bytes@ == self@.received,
    {
        &self.received
    }

    /// The release whose package this is.
    pub fn release(&self) -> (release: &ReleaseResponse)
        ensures
            *release == self@.release,
    {
        &self.release
    }

    /// The package, where it is what its release advertises: it has the advertised size, and
    /// `digest`, its SHA-256 digest in base sixteen, is the advertised one.
    pub fn finish(&self, digest: &str) -> (package: Result<&Vec<u8>, PackageError>)
        ensures
            match package {
                Ok(bytes) => self@.whole() && self@.has_digest(digest@) && bytes@
                    == self@.received,
                Err(PackageError::SizeMismatch) => !self@.whole(),
                Err(PackageError::DigestMismatch) => self@.whole() && !self@.has_digest(digest@),
                Err(PackageError::UnacceptableSize) => false,
            },
    {
        if self.received.len() as u64 != self.release.size {
            return Err(PackageError::SizeMismatch);
        }
        if !text::same_ignoring_case(digest, self.release.sha256.as_str()) {
            return Err(PackageError::DigestMismatch);
        }
        Ok(&self.received)
    }
}

/// The bytes of parts, one after the other.
pub open spec fn all_parts(parts: Seq<Seq<u8>>) -> Seq<u8>
    decreases parts.len(),
{
    if parts.len() == 0 {
        Seq::empty()
    } else {
        all_parts(parts.drop_last()) + parts.last()
    }
}

/// Whether each of these parts is of the length that was asked for in its turn.
pub open spec fn parts_fit(size: nat, parts: Seq<Seq<u8>>) -> bool {
    forall|k: int|
        #![trigger parts[k]]
        0 <= k < parts.len() ==> parts[k].len() == part_length(
            size,
            all_parts(parts.take(k)).len(),
        )
}

/// A package is downloaded in bounded parts and without gaps: while every part is as long as was
/// asked for, no part exceeds the bound, and as many parts as the bound divides the package into
/// are all that it takes.
pub proof fn law_download_is_bounded(size: nat, parts: Seq<Seq<u8>>)
    requires
        parts_fit(size, parts),
    ensures
        forall|k: int|
            0 <= k < parts.len() ==> (#[trigger] parts[k]).len() <= MAX_PACKAGE_CHUNK_BYTES,
        all_parts(parts).len() == vstd::math::min(
            size as int,
            parts.len() * MAX_PACKAGE_CHUNK_BYTES as int,
        ),
    decreases parts.len(),
{
    if parts.len() > 0 {
        let front = parts.drop_last();
        assert forall|k: int| #![trigger front[k]] 0 <= k < front.len() implies front[k].len()
            == part_length(size, all_parts(front.take(k)).len()) by {
            assert(front[k] == parts[k]);
            assert(front.take(k) =~= parts.take(k));
        }
        law_download_is_bounded(size, front);
        assert(parts.take(parts.len() - 1) =~= front);
        let bound = MAX_PACKAGE_CHUNK_BYTES as int;
        assert(parts.len() * bound == front.len() * bound + bound) by (nonlinear_arith)
            requires
                parts.len() == front.len() + 1,
        ;
        assert(parts[parts.len() - 1] == parts.last());
        assert forall|k: int| 0 <= k < parts.len() implies (#[trigger] parts[k]).len()
            <= MAX_PACKAGE_CHUNK_BYTES by {
            if k < front.len() {
                assert(front[k] == parts[k]);
            }
        }
    }
}

/// The store downloads packages of one byte up to two hundred and fifty-six mebibytes.
pub proof fn law_acceptable_sizes(size: u64)
    ensures
        acceptable_size(size) <==> 0 < size <= 256 * 0x10_0000,
{
}

/// The digest of a package is the advertised one where the two texts are the same, of whatever
/// length, or differ in nothing but the case of ASCII letters, and not otherwise.
pub proof fn law_digests_are_the_same_text(download: Download, digest: Seq<char>)
    ensures
        digest == download.release.sha256@ ==> download.has_digest(digest),
        text::lowered(digest) == text::lowered(download.release.sha256@) ==> download.has_digest(
            digest,
        ),
        text::lowered(digest) != text::lowered(download.release.sha256@) ==> !download.has_digest(
            digest,
        ),
{
}

/// A download asks for all that is left of its package, but never for more than two mebibytes; a
/// part of that length is put behind what has come; and the package is whole when as many bytes
/// have come as were advertised.
pub proof fn law_parts_fill_the_package(download: Download, part: Seq<u8>)
    requires
        download.received.len() <= download.release.size,
    ensures
        ({
            let left = download.release.size - download.received.len();
            &&& left <= 2 * 0x10_0000 ==> download.next_length() == left
            &&& left > 2 * 0x10_0000 ==> download.next_length() == 2 * 0x10_0000
            &&& download.whole() <==> left == 0
            &&& download.in_order() <==> 0 < download.release.size <= 256 * 0x10_0000
            &&& download.with_part(part).release == download.release
            &&& download.with_part(part).received == download.received + part
        }),
{
}

/// The bytes of parts are those of the parts, one behind the other.
pub proof fn law_parts_are_joined(parts: Seq<Seq<u8>>, part: Seq<u8>)
    ensures
        all_parts(Seq::empty()) == Seq::<u8>::empty(),
        all_parts(parts.push(part)) == all_parts(parts) + part,
{
    assert(parts.push(part).drop_last() == parts);
}

} // verus!
