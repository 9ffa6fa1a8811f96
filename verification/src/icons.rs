//! The icons of the apps: which ones to ask for, which ones are there.

use vstd::hash_set::StringHashSet;
use vstd::prelude::*;
use viewkit::image::ImageData;

use crate::api::DataRequest;
use crate::catalog::{CatalogApp, Storefront, StorefrontSection};
use crate::listing;
use crate::listing::Titled;
use crate::text;

verus! {

/// The largest width and height of an icon, in pixels.
pub const MAX_ICON_DIMENSION: u32 = 2_048;

/// A decoded picture of the user interface library.
#[verifier::external_type_specification]
#[verifier::external_body]
pub struct ExImageData(viewkit::image::ImageData);

/// The picture that `ImageData::decode` makes of bytes, with its width and its height.
pub uninterp spec fn decoded_image(bytes: Seq<u8>) -> Option<(ImageData, u32, u32)>;

/// Calls `ImageData::decode` and asks the picture for its dimensions. Nothing but the bytes
/// decides whether there is a picture, and which one. A picture is never empty.
#[verifier::external_body]
fn decode_image(bytes: &[u8]) -> (decoded: Option<(ImageData, u32, u32)>)
    ensures
        decoded == decoded_image(bytes@),
        decoded matches Some((_, width, height)) ==> 0 < width && 0 < height,
{
    match ImageData::decode(bytes) {
        Ok(image) => {
            let (width, height) = image.dimensions();
            Some((image, width, height))
        },
        Err(_) => None,
    }
}

/// The picture, where it is small enough for an icon.
pub open spec fn small_enough<I>(decoded: Option<(I, u32, u32)>) -> Option<I> {
    match decoded {
        Some((image, width, height)) => if width <= MAX_ICON_DIMENSION && height
            <= MAX_ICON_DIMENSION {
            Some(image)
        } else {
            None
        },
        None => None,
    }
}

/// A decoded picture with its width and its height, where it is small enough for an icon.
pub fn accept_icon<I>(decoded: Option<(I, u32, u32)>) -> (icon: Option<I>)
    ensures
        icon == small_enough(decoded),
{
    match decoded {
        Some((image, width, height)) => if width <= MAX_ICON_DIMENSION && height
            <= MAX_ICON_DIMENSION {
            Some(image)
        } else {
            None
        },
        None => None,
    }
}

/// The icon that bytes encode, where they encode one that is small enough.
pub fn decode_icon(bytes: &[u8]) -> (icon: Option<ImageData>)
    ensures
        icon == small_enough(decoded_image(bytes@)),
{
    accept_icon(decode_image(bytes))
}

/// A request for the icon of an app.
pub struct IconRequest {
    pub request_id: u64,
    pub bundle_id: String,
    pub url: String,
}

/// What an icon is asked for with: whose it is, and where it is.
pub struct IconSource {
    pub bundle_id: Seq<char>,
    pub url: Seq<char>,
}

/// Whether the icon of an app is among these.
pub open spec fn asks_for(sources: Seq<IconSource>, bundle_id: Seq<char>) -> bool {
    exists|i: int| 0 <= i < sources.len() && #[trigger] sources[i].bundle_id == bundle_id
}

/// The icons to ask for, in order: of several apps with one bundle identifier, the icon of the
/// first that has one.
pub open spec fn icon_sources(apps: Seq<Titled>) -> Seq<IconSource>
    decreases apps.len(),
{
    if apps.len() == 0 {
        Seq::empty()
    } else {
        let before = icon_sources(apps.drop_last());
        let app = apps.last().app;
        if app.icon is Some && !asks_for(before, app.bundle_id@) {
            before.push(IconSource { bundle_id: app.bundle_id@, url: app.icon->0@ })
        } else {
            before
        }
    }
}

/// The number of the request at index `i` of all requests for icons.
pub open spec fn icon_request_id(i: int) -> u64 {
    0x4943_4f4e_0000_0000u64 | (i + 1) as u64
}

/// Whether these requests ask for these icons, under the numbers that are theirs.
pub open spec fn requests_for(requests: Seq<IconRequest>, sources: Seq<IconSource>) -> bool {
    &&& requests.len() == sources.len()
    &&& forall|i: int|
        0 <= i < requests.len() ==> {
            &&& (#[trigger] requests[i]).request_id == icon_request_id(i)
            &&& requests[i].bundle_id@ == sources[i].bundle_id
            &&& requests[i].url@ == sources[i].url
        }
}

/// The requests for the icons of a storefront. Without a storefront there are none.
pub fn icon_requests(storefront: Option<&Storefront>) -> (requests: Vec<IconRequest>)
    ensures
        match storefront {
            Some(storefront) => requests_for(
                requests@,
                icon_sources(listing::all_apps(storefront.sections@)),
            ),
            None => requests@.len() == 0,
        },
{
    let mut requests: Vec<IconRequest> = Vec::new();
    let storefront = match storefront {
        Some(storefront) => storefront,
        None => {
            return requests;
        },
    };
    let mut seen = StringHashSet::new();
    let mut request_index: u64 = 1;
    let ghost mut apps: Seq<Titled> = Seq::empty();
    let mut s: usize = 0;
    while s < storefront.sections.len()
        invariant
            s <= storefront.sections@.len(),
            apps == listing::all_apps(storefront.sections@.take(s as int)),
            requests_for(requests@, icon_sources(apps)),
            request_index == vstd::math::min(requests@.len() as int + 1, u64::MAX as int),
            forall|id: Seq<char>| #[trigger] seen@.contains(id) <==> asks_for(icon_sources(apps), id),
        decreases storefront.sections@.len() - s,
    {
        let section: &StorefrontSection = &storefront.sections[s];
        let ghost front = apps;
        let mut a: usize = 0;
        while a < section.apps.len()
            invariant
                a <= section.apps@.len(),
                apps == front + listing::section_apps(*section).take(a as int),
                requests_for(requests@, icon_sources(apps)),
                request_index == vstd::math::min(requests@.len() as int + 1, u64::MAX as int),
                forall|id: Seq<char>| #[trigger]
                    seen@.contains(id) <==> asks_for(icon_sources(apps), id),
            decreases section.apps@.len() - a,
        {
            let app: &CatalogApp = &section.apps[a];
            let ghost titled = Titled { title: section.title@, app: *app };
            let ghost before = icon_sources(apps);
            let ghost longer = apps.push(titled);
            proof {
                let listed = listing::section_apps(*section);
                assert(listed[a as int] == titled);
                assert(listed.take(a + 1) =~= listed.take(a as int).push(titled));
                assert(front + listed.take(a + 1) =~= longer);
                assert(longer.drop_last() =~= apps);
            }
            if let Some(url) = &app.icon {
                if seen.insert(app.bundle_id.clone()) {
                    let ghost source = IconSource { bundle_id: app.bundle_id@, url: url@ };
                    let ghost old_requests = requests@;
                    let room: usize = requests.len();
                    let request_id = 0x4943_4f4e_0000_0000u64 | request_index;
                    requests.push(
                        IconRequest {
                            request_id,
                            bundle_id: app.bundle_id.clone(),
                            url: url.clone(),
                        },
                    );
                    request_index = request_index.saturating_add(1);
                    assert(requests.len() == room + 1);
                    assert(icon_sources(longer) =~= before.push(source));
                    assert forall|id: Seq<char>| #[trigger] seen@.contains(id) <==> asks_for(
                        before.push(source),
                        id,
                    ) by {
                        let after = before.push(source);
                        if asks_for(before, id) {
                            let i = choose|i: int|
                                0 <= i < before.len() && #[trigger] before[i].bundle_id == id;
                            assert(after[i].bundle_id == id);
                        }
                        assert(after[before.len() as int].bundle_id == app.bundle_id@);
                    }
                }
            }
            assert(requests_for(requests@, icon_sources(longer)));
            proof {
                apps = longer;
            }
            a += 1;
        }
        assert(storefront.sections@.take(s + 1).drop_last() =~= storefront.sections@.take(
            s as int,
        ));
        assert(listing::section_apps(*section).take(a as int) =~= listing::section_apps(*section));
        s += 1;
    }
    assert(storefront.sections@.take(s as int) =~= storefront.sections@);
    requests
}

/// An icon that is there.
pub struct LoadedIcon<I> {
    pub bundle_id: String,
    pub image: I,
}

/// The icons that are there, and the requests for those that are still to come.
pub struct IconBook<I> {
    pub loaded: Vec<LoadedIcon<I>>,
    pub pending: Vec<(u64, String)>,
}

/// The index of the first icon of an app, or the number of icons where there is none.
pub open spec fn first_icon<I>(icons: Seq<LoadedIcon<I>>, bundle_id: Seq<char>) -> int
    decreases icons.len(),
{
    if icons.len() == 0 || icons[0].bundle_id@ == bundle_id {
        0
    } else {
        1 + first_icon(icons.drop_first(), bundle_id)
    }
}

/// The icon of an app.
pub open spec fn icon_of<I>(icons: Seq<LoadedIcon<I>>, bundle_id: Seq<char>) -> Option<I> {
    let i = first_icon(icons, bundle_id);
    if i < icons.len() {
        Some(icons[i].image)
    } else {
        None
    }
}

/// The icons with a new one for an app, in place of the one that it has or behind all others.
pub open spec fn with_icon<I>(icons: Seq<LoadedIcon<I>>, icon: LoadedIcon<I>) -> Seq<LoadedIcon<I>> {
    let i = first_icon(icons, icon.bundle_id@);
    if i < icons.len() {
        icons.update(i, LoadedIcon { bundle_id: icons[i].bundle_id, image: icon.image })
    } else {
        icons.push(icon)
    }
}

/// The index of the first pending request with a number, or the number of pending requests.
pub open spec fn first_pending(pending: Seq<(u64, String)>, request_id: u64) -> int
    decreases pending.len(),
{
    if pending.len() == 0 || pending[0].0 == request_id {
        0
    } else {
        1 + first_pending(pending.drop_first(), request_id)
    }
}

/// The first index is the one that no other is in front of.
proof fn lemma_first_icon<I>(icons: Seq<LoadedIcon<I>>, bundle_id: Seq<char>, i: int)
    requires
        0 <= i <= icons.len(),
        forall|k: int| 0 <= k < i ==> (#[trigger] icons[k]).bundle_id@ != bundle_id,
        i < icons.len() ==> icons[i].bundle_id@ == bundle_id,
    ensures
        first_icon(icons, bundle_id) == i,
    decreases icons.len(),
{
    if i > 0 {
        let rest = icons.drop_first();
        assert(icons[0].bundle_id@ != bundle_id);
        assert forall|k: int| 0 <= k < i - 1 implies (#[trigger] rest[k]).bundle_id@ != bundle_id by {
            assert(icons[k + 1].bundle_id@ != bundle_id);
        }
        lemma_first_icon(rest, bundle_id, i - 1);
    }
}

/// What the first index is.
proof fn lemma_first_icon_found<I>(icons: Seq<LoadedIcon<I>>, bundle_id: Seq<char>)
    ensures
        0 <= first_icon(icons, bundle_id) <= icons.len(),
        forall|k: int|
            0 <= k < first_icon(icons, bundle_id) ==> (#[trigger] icons[k]).bundle_id@ != bundle_id,
        first_icon(icons, bundle_id) < icons.len() ==> icons[first_icon(
            icons,
            bundle_id,
        )].bundle_id@ == bundle_id,
    decreases icons.len(),
{
    if icons.len() > 0 && icons[0].bundle_id@ != bundle_id {
        let rest = icons.drop_first();
        lemma_first_icon_found(rest, bundle_id);
        assert forall|k: int| 0 <= k < first_icon(icons, bundle_id) implies (#[trigger] icons[k]).bundle_id@
            != bundle_id by {
            if k > 0 {
                assert(rest[k - 1].bundle_id@ != bundle_id);
            }
        }
    }
}

proof fn lemma_first_pending(pending: Seq<(u64, String)>, request_id: u64, i: int)
    requires
        0 <= i <= pending.len(),
        forall|k: int| 0 <= k < i ==> (#[trigger] pending[k]).0 != request_id,
        i < pending.len() ==> pending[i].0 == request_id,
    ensures
        first_pending(pending, request_id) == i,
    decreases pending.len(),
{
    if i > 0 {
        let rest = pending.drop_first();
        assert(pending[0].0 != request_id);
        assert forall|k: int| 0 <= k < i - 1 implies (#[trigger] rest[k]).0 != request_id by {
            assert(pending[k + 1].0 != request_id);
        }
        lemma_first_pending(rest, request_id, i - 1);
    }
}

/// The index of the icon of an app, or the number of icons where it has none.
fn find_icon<I>(icons: &Vec<LoadedIcon<I>>, bundle_id: &str) -> (i: usize)
    ensures
        i == first_icon(icons@, bundle_id@),
        i <= icons@.len(),
{
    let mut i: usize = 0;
    while i < icons.len()
        invariant
            i <= icons@.len(),
            forall|k: int| 0 <= k < i ==> (#[trigger] icons@[k]).bundle_id@ != bundle_id@,
        decreases icons@.len() - i,
    {
        if text::same_text(icons[i].bundle_id.as_str(), bundle_id) {
            proof {
                lemma_first_icon(icons@, bundle_id@, i as int);
            }
            return i;
        }
        i += 1;
    }
    proof {
        lemma_first_icon(icons@, bundle_id@, i as int);
    }
    i
}

/// The icon of an app, where it is there.
pub fn loaded_icon<'a, I>(icons: &'a Vec<LoadedIcon<I>>, bundle_id: &str) -> (icon: Option<&'a I>)
    ensures
        match icon {
            Some(image) => icon_of(icons@, bundle_id@) == Some(*image),
            None => icon_of(icons@, bundle_id@) is None,
        },
{
    let i = find_icon(icons, bundle_id);
    if i < icons.len() {
        Some(&icons[i].image)
    } else {
        None
    }
}

/// A book after a request was started: the icon is pending, or there, or not to be had.
pub open spec fn recorded<I, E>(
    loaded: Seq<LoadedIcon<I>>,
    pending: Seq<(u64, String)>,
    request: IconRequest,
    started: Result<DataRequest<Option<I>>, E>,
) -> (Seq<LoadedIcon<I>>, Seq<(u64, String)>) {
    match started {
        Ok(DataRequest::Pending) => (loaded, pending.push((request.request_id, request.bundle_id))),
        Ok(DataRequest::Ready(Some(image))) => (
            loaded.push(LoadedIcon { bundle_id: request.bundle_id, image }),
            pending,
        ),
        _ => (loaded, pending),
    }
}

/// The pending requests after the answer to one of them came: the last takes its place.
pub open spec fn without_pending(pending: Seq<(u64, String)>, request_id: u64) -> Seq<
    (u64, String),
> {
    let i = first_pending(pending, request_id);
    if i < pending.len() {
        pending.update(i, pending.last()).drop_last()
    } else {
        pending
    }
}

/// The icons after the answer to a request came: where it was pending and brought a picture, the
/// app has it.
pub open spec fn settled<I>(
    loaded: Seq<LoadedIcon<I>>,
    pending: Seq<(u64, String)>,
    request_id: u64,
    image: Option<I>,
) -> Seq<LoadedIcon<I>> {
    let i = first_pending(pending, request_id);
    match image {
        Some(image) => if i < pending.len() {
            with_icon(loaded, LoadedIcon { bundle_id: pending[i].1, image })
        } else {
            loaded
        },
        None => loaded,
    }
}

impl<I> IconBook<I> {
    /// A book without any icon.
    pub fn empty() -> (book: IconBook<I>)
        ensures
            book.loaded@ == Seq::<LoadedIcon<I>>::empty(),
            book.pending@ == Seq::<(u64, String)>::empty(),
    {
        IconBook { loaded: Vec::new(), pending: Vec::new() }
    }

    /// Takes note of a request that was started.
    pub fn record<E>(&mut self, request: IconRequest, started: Result<DataRequest<Option<I>>, E>)
        ensures
            (final(self).loaded@, final(self).pending@) == recorded(
                old(self).loaded@,
                old(self).pending@,
                request,
                started,
            ),
    {
        match started {
            Ok(DataRequest::Pending) => {
                self.pending.push((request.request_id, request.bundle_id));
            },
            Ok(DataRequest::Ready(Some(image))) => {
                self.loaded.push(LoadedIcon { bundle_id: request.bundle_id, image });
            },
            Ok(DataRequest::Ready(None)) => {},
            Err(_) => {},
        }
    }

    /// Whose icon the pending request asks for, which is then no longer pending.
    fn take_pending(&mut self, request_id: u64) -> (bundle_id: Option<String>)
        ensures
            final(self).loaded == old(self).loaded,
            final(self).pending@ == without_pending(old(self).pending@, request_id),
            ({
                let i = first_pending(old(self).pending@, request_id);
                if i < old(self).pending@.len() {
                    bundle_id == Some(old(self).pending@[i].1)
                } else {
                    bundle_id is None
                }
            }),
    {
        let mut i: usize = 0;
        while i < self.pending.len()
            invariant
                *self == *old(self),
                i <= self.pending@.len(),
                forall|k: int| 0 <= k < i ==> (#[trigger] self.pending@[k]).0 != request_id,
            decreases self.pending@.len() - i,
        {
            if self.pending[i].0 == request_id {
                proof {
                    lemma_first_pending(self.pending@, request_id, i as int);
                }
                let (_, bundle_id) = self.pending.swap_remove(i);
                return Some(bundle_id);
            }
            i += 1;
        }
        proof {
            lemma_first_pending(self.pending@, request_id, i as int);
        }
        None
    }

    /// Gives an app an icon, in place of the one that it has.
    fn install(&mut self, icon: LoadedIcon<I>)
        ensures
            final(self).pending == old(self).pending,
            final(self).loaded@ == with_icon(old(self).loaded@, icon),
    {
        let i = find_icon(&self.loaded, icon.bundle_id.as_str());
        if i < self.loaded.len() {
            self.loaded[i].image = icon.image;
        } else {
            self.loaded.push(icon);
        }
    }

    /// Takes the answer to a request, which brought a picture or none, and says whether the
    /// request was pending.
    pub fn settle(&mut self, request_id: u64, image: Option<I>) -> (was_pending: bool)
        ensures
            was_pending == (first_pending(old(self).pending@, request_id)
                < old(self).pending@.len()),
            final(self).pending@ == without_pending(old(self).pending@, request_id),
            final(self).loaded@ == settled(
                old(self).loaded@,
                old(self).pending@,
                request_id,
                image,
            ),
    {
        match self.take_pending(request_id) {
            Some(bundle_id) => {
                if let Some(image) = image {
                    self.install(LoadedIcon { bundle_id, image });
                }
                true
            },
            None => false,
        }
    }
}

/// The icon in an answer that came at once.
pub open spec fn started_icon<E>(started: Result<DataRequest<Vec<u8>>, E>) -> Result<
    DataRequest<Option<ImageData>>,
    E,
> {
    match started {
        Ok(DataRequest::Pending) => Ok(DataRequest::Pending),
        Ok(DataRequest::Ready(bytes)) => Ok(
            DataRequest::Ready(small_enough(decoded_image(bytes@))),
        ),
        Err(error) => Err(error),
    }
}

/// The icon in an answer that came later.
pub open spec fn finished_icon<E>(result: Result<Vec<u8>, E>) -> Option<ImageData> {
    match result {
        Ok(bytes) => small_enough(decoded_image(bytes@)),
        Err(_) => None,
    }
}

/// The icons and the pending requests after all these requests were started.
pub open spec fn all_recorded<E>(
    started: Seq<(IconRequest, Result<DataRequest<Vec<u8>>, E>)>,
) -> (Seq<LoadedIcon<ImageData>>, Seq<(u64, String)>)
    decreases started.len(),
{
    if started.len() == 0 {
        (Seq::empty(), Seq::empty())
    } else {
        let (loaded, pending) = all_recorded(started.drop_last());
        let (request, outcome) = started.last();
        recorded(loaded, pending, request, started_icon(outcome))
    }
}

/// The icons that are there, and the pending requests, after all these requests were started.
pub fn start_icon_requests<E>(
    started: Vec<(IconRequest, Result<DataRequest<Vec<u8>>, E>)>,
) -> (book: IconBook<ImageData>)
    ensures
        (book.loaded@, book.pending@) == all_recorded(started@),
{
    let mut book: IconBook<ImageData> = IconBook::empty();
    let ghost all = started@;
    for entry in iter: started
        invariant
            iter.seq() == all,
            (book.loaded@, book.pending@) == all_recorded(all.take(iter.index() as int)),
    {
        let (request, outcome) = entry;
        let icon: Result<DataRequest<Option<ImageData>>, E> = match outcome {
            Ok(DataRequest::Pending) => Ok(DataRequest::Pending),
            Ok(DataRequest::Ready(bytes)) => Ok(DataRequest::Ready(decode_icon(bytes.as_slice()))),
            Err(error) => Err(error),
        };
        assert(all.take(iter.index() + 1).drop_last() =~= all.take(iter.index() as int));
        book.record(request, icon);
    }
    assert(all.take(all.len() as int) =~= all);
    book
}

/// Takes a message of the platform, which may finish a request for an icon, and says whether it
/// changed anything.
pub fn handle_platform_message<E>(
    book: &mut IconBook<ImageData>,
    finished: Option<(u64, Result<Vec<u8>, E>)>,
) -> (changed: bool)
    ensures
        match finished {
            Some((request_id, result)) => {
                &&& changed == (first_pending(old(book).pending@, request_id)
                    < old(book).pending@.len())
                &&& final(book).pending@ == without_pending(old(book).pending@, request_id)
                &&& final(book).loaded@ == settled(
                    old(book).loaded@,
                    old(book).pending@,
                    request_id,
                    finished_icon(result),
                )
            },
            None => !changed && *final(book) == *old(book),
        },
{
    let (request_id, result) = match finished {
        Some(finished) => finished,
        None => {
            return false;
        },
    };
    let image = match result {
        Ok(bytes) => decode_icon(bytes.as_slice()),
        Err(_) => None,
    };
    book.settle(request_id, image)
}

/// The requests for icons have numbers of their own, as long as there are no more of them than
/// thirty-two bits can count.
pub proof fn law_icon_requests_differ(i: int, j: int)
    requires
        0 <= i < j < 0xffff_ffff,
    ensures
        icon_request_id(i) != icon_request_id(j),
{
    let a = (i + 1) as u64;
    let b = (j + 1) as u64;
    assert(0x4943_4f4e_0000_0000u64 | a != 0x4943_4f4e_0000_0000u64 | b) by (bit_vector)
        requires
            a < b,
            b <= 0xffff_ffffu64,
    ;
}

/// No app's icon is asked for twice.
pub proof fn law_no_icon_is_asked_for_twice(apps: Seq<Titled>, i: int, j: int)
    requires
        0 <= i < j < icon_sources(apps).len(),
    ensures
        icon_sources(apps)[i].bundle_id != icon_sources(apps)[j].bundle_id,
    decreases apps.len(),
{
    let before = icon_sources(apps.drop_last());
    if j < before.len() {
        law_no_icon_is_asked_for_twice(apps.drop_last(), i, j);
    } else {
        assert(icon_sources(apps)[i] == before[i]);
    }
}

/// The icon of every app that has one is asked for, itself or that of an app with the same bundle
/// identifier.
pub proof fn law_every_icon_is_asked_for(apps: Seq<Titled>, k: int)
    requires
        0 <= k < apps.len(),
        apps[k].app.icon is Some,
    ensures
        asks_for(icon_sources(apps), apps[k].app.bundle_id@),
    decreases apps.len(),
{
    let front = apps.drop_last();
    let before = icon_sources(front);
    let after = icon_sources(apps);
    let id = apps[k].app.bundle_id@;
    if k < front.len() {
        law_every_icon_is_asked_for(front, k);
    }
    if asks_for(before, id) {
        let i = choose|i: int| 0 <= i < before.len() && #[trigger] before[i].bundle_id == id;
        assert(after[i] == before[i]);
    } else {
        assert(after[before.len() as int].bundle_id == id);
    }
}

/// A new icon is the app's icon from then on, and no other app's icon changes.
pub proof fn law_new_icon_is_shown<I>(
    icons: Seq<LoadedIcon<I>>,
    icon: LoadedIcon<I>,
    other: Seq<char>,
)
    ensures
        icon_of(with_icon(icons, icon), icon.bundle_id@) == Some(icon.image),
        other != icon.bundle_id@ ==> icon_of(with_icon(icons, icon), other) == icon_of(
            icons,
            other,
        ),
{
    let id = icon.bundle_id@;
    let after = with_icon(icons, icon);
    let i = first_icon(icons, id);
    lemma_first_icon_found(icons, id);
    assert forall|k: int| 0 <= k < i implies (#[trigger] after[k]).bundle_id@ != id by {
        assert(after[k] == icons[k]);
    }
    lemma_first_icon(after, id, i);
    if other != id {
        let o = first_icon(icons, other);
        lemma_first_icon_found(icons, other);
        let p: int = if o < icons.len() {
            o
        } else {
            after.len() as int
        };
        assert forall|k: int| 0 <= k < p implies (#[trigger] after[k]).bundle_id@ != other by {
            if k < icons.len() {
                assert(after[k].bundle_id@ == icons[k].bundle_id@);
            }
        }
        lemma_first_icon(after, other, p);
    }
}

/// Whether no app has two icons.
pub open spec fn one_icon_each<I>(icons: Seq<LoadedIcon<I>>) -> bool {
    forall|i: int, j: int|
        0 <= i < j < icons.len() ==> (#[trigger] icons[i]).bundle_id@ != (
        #[trigger] icons[j]).bundle_id@
}

/// No answer to a request gives an app a second icon.
pub proof fn law_settling_keeps_one_icon_each<I>(
    loaded: Seq<LoadedIcon<I>>,
    pending: Seq<(u64, String)>,
    request_id: u64,
    image: Option<I>,
)
    requires
        one_icon_each(loaded),
    ensures
        one_icon_each(settled(loaded, pending, request_id, image)),
{
    let i = first_pending(pending, request_id);
    if image is Some && i < pending.len() {
        let icon = LoadedIcon { bundle_id: pending[i].1, image: image->0 };
        let at = first_icon(loaded, icon.bundle_id@);
        lemma_first_icon_found(loaded, icon.bundle_id@);
        let after = with_icon(loaded, icon);
        assert forall|a: int, b: int| 0 <= a < b < after.len() implies (#[trigger] after[a]).bundle_id@
            != (#[trigger] after[b]).bundle_id@ by {
            assert(after[a].bundle_id@ == loaded[a].bundle_id@);
            if b < loaded.len() {
                assert(after[b].bundle_id@ == loaded[b].bundle_id@);
                assert(loaded[a].bundle_id@ != loaded[b].bundle_id@);
            }
        }
    }
}

/// Whether the pending requests have numbers of their own.
pub open spec fn numbers_differ(pending: Seq<(u64, String)>) -> bool {
    forall|i: int, j: int|
        0 <= i < j < pending.len() ==> (#[trigger] pending[i]).0 != (#[trigger] pending[j]).0
}

/// No answer to a request leaves an app among both the pending and those with an icon: where no
/// app had two pending requests, or an icon and a pending request, none has so afterwards.
pub proof fn law_settling_keeps_apps_apart<I>(
    loaded: Seq<LoadedIcon<I>>,
    pending: Seq<(u64, String)>,
    request_id: u64,
    image: Option<I>,
)
    requires
        one_request_each(pending),
        loaded_or_pending(loaded, pending),
    ensures
        one_request_each(without_pending(pending, request_id)),
        loaded_or_pending(
            settled(loaded, pending, request_id, image),
            without_pending(pending, request_id),
        ),
{
    let i = first_pending(pending, request_id);
    let left = without_pending(pending, request_id);
    let icons = settled(loaded, pending, request_id, image);
    lemma_first_pending_found(pending, request_id);
    if i < pending.len() {
        let last = pending.len() - 1;
        let place = |k: int|
            if k == i {
                last
            } else {
                k
            };
        assert forall|k: int| 0 <= k < left.len() implies #[trigger] left[k] == pending[place(k)]
            && left[k].1@ != pending[i].1@ by {
            let p = place(k);
            if p < i {
                assert(pending[p].1@ != pending[i].1@);
            } else {
                assert(pending[i].1@ != pending[p].1@);
            }
        }
        assert forall|a: int, b: int| 0 <= a < b < left.len() implies (#[trigger] left[a]).1@ != (
        #[trigger] left[b]).1@ by {
            let x = place(a);
            let y = place(b);
            assert(left[a] == pending[x]);
            assert(left[b] == pending[y]);
            if x < y {
                assert(pending[x].1@ != pending[y].1@);
            } else {
                assert(pending[y].1@ != pending[x].1@);
            }
        }
        lemma_first_icon_found(loaded, pending[i].1@);
        assert forall|a: int, b: int| 0 <= a < icons.len() && 0 <= b < left.len() implies (
        #[trigger] icons[a]).bundle_id@ != (#[trigger] left[b]).1@ by {
            assert(left[b] == pending[place(b)]);
            if a < loaded.len() {
                assert(icons[a].bundle_id@ == loaded[a].bundle_id@);
                assert(loaded[a].bundle_id@ != pending[place(b)].1@);
            }
        }
    }
}

/// An answer is taken once: after it no request with its number is pending, the others still
/// are, and their numbers still differ.
pub proof fn law_answer_is_taken_once(pending: Seq<(u64, String)>, request_id: u64)
    requires
        numbers_differ(pending),
    ensures
        first_pending(without_pending(pending, request_id), request_id) == without_pending(
            pending,
            request_id,
        ).len(),
        numbers_differ(without_pending(pending, request_id)),
        forall|k: int|
            0 <= k < pending.len() && (#[trigger] pending[k]).0 != request_id ==> without_pending(
                pending,
                request_id,
            ).contains(pending[k]),
{
    let i = first_pending(pending, request_id);
    let after = without_pending(pending, request_id);
    lemma_first_pending_found(pending, request_id);
    if i < pending.len() {
        let last = pending.len() - 1;
        assert forall|k: int| 0 <= k < after.len() implies (#[trigger] after[k]).0 != request_id by {
            if k == i {
                assert(after[k] == pending[last]);
                assert(pending[i].0 != pending[last].0);
            } else {
                assert(after[k] == pending[k]);
                if k < i {
                    assert(pending[k].0 != pending[i].0);
                } else {
                    assert(pending[i].0 != pending[k].0);
                }
            }
        }
        assert forall|a: int, b: int| 0 <= a < b < after.len() implies (#[trigger] after[a]).0 != (
        #[trigger] after[b]).0 by {
            let x = if a == i {
                last
            } else {
                a
            };
            let y = if b == i {
                last
            } else {
                b
            };
            assert(after[a] == pending[x]);
            assert(after[b] == pending[y]);
            assert(x != y);
            if x < y {
                assert(pending[x].0 != pending[y].0);
            } else {
                assert(pending[y].0 != pending[x].0);
            }
        }
        assert forall|k: int| 0 <= k < pending.len() && (#[trigger] pending[k]).0 != request_id implies after.contains(
            pending[k],
        ) by {
            if k == last {
                assert(after[i] == pending[k]);
            } else {
                assert(after[k] == pending[k]);
            }
        }
    } else {
        assert forall|k: int| 0 <= k < pending.len() && (#[trigger] pending[k]).0 != request_id implies after.contains(
            pending[k],
        ) by {
            assert(after[k] == pending[k]);
        }
    }
    lemma_first_pending(after, request_id, after.len() as int);
}

proof fn lemma_first_pending_found(pending: Seq<(u64, String)>, request_id: u64)
    ensures
        0 <= first_pending(pending, request_id) <= pending.len(),
        forall|k: int|
            0 <= k < first_pending(pending, request_id) ==> (#[trigger] pending[k]).0 != request_id,
        first_pending(pending, request_id) < pending.len() ==> pending[first_pending(
            pending,
            request_id,
        )].0 == request_id,
    decreases pending.len(),
{
    if pending.len() > 0 && pending[0].0 != request_id {
        let rest = pending.drop_first();
        lemma_first_pending_found(rest, request_id);
        assert forall|k: int| 0 <= k < first_pending(pending, request_id) implies (
        #[trigger] pending[k]).0 != request_id by {
            if k > 0 {
                assert(rest[k - 1].0 != request_id);
            }
        }
    }
}

/// Whether no app has two pending requests.
pub open spec fn one_request_each(pending: Seq<(u64, String)>) -> bool {
    forall|i: int, j: int|
        0 <= i < j < pending.len() ==> (#[trigger] pending[i]).1@ != (#[trigger] pending[j]).1@
}

/// Whether no app has both an icon and a pending request for one.
pub open spec fn loaded_or_pending<I>(
    loaded: Seq<LoadedIcon<I>>,
    pending: Seq<(u64, String)>,
) -> bool {
    forall|i: int, j: int|
        0 <= i < loaded.len() && 0 <= j < pending.len() ==> (#[trigger] loaded[i]).bundle_id@ != (
        #[trigger] pending[j]).1@
}

/// Whether a number is that of one of the first `k` requests.
spec fn is_early_number(request_id: u64, k: int) -> bool {
    exists|m: int| 0 <= m < k && request_id == #[trigger] icon_request_id(m)
}

/// Whether an app is that of one of the first `k` requests.
spec fn is_early_source(sources: Seq<IconSource>, bundle_id: Seq<char>, k: int) -> bool {
    exists|m: int| 0 <= m < k && bundle_id == (#[trigger] sources[m]).bundle_id
}

/// The requests among requests and what became of them.
pub open spec fn requests_of<E>(
    started: Seq<(IconRequest, Result<DataRequest<Vec<u8>>, E>)>,
) -> Seq<IconRequest> {
    started.map_values(|entry: (IconRequest, Result<DataRequest<Vec<u8>>, E>)| entry.0)
}

/// When the requests for the icons of a storefront are started, whatever becomes of each of them,
/// no app has two icons, two pending requests, or one of each, and the pending requests have
/// numbers of their own. This holds of as many requests as have numbers of their own.
pub proof fn law_start_is_orderly<E>(
    apps: Seq<Titled>,
    started: Seq<(IconRequest, Result<DataRequest<Vec<u8>>, E>)>,
)
    requires
        requests_for(requests_of(started), icon_sources(apps)),
        started.len() <= 0xffff_ffff,
    ensures
        one_icon_each(all_recorded(started).0),
        numbers_differ(all_recorded(started).1),
        one_request_each(all_recorded(started).1),
        loaded_or_pending(all_recorded(started).0, all_recorded(started).1),
{
    lemma_recorded_prefix(apps, started, started.len() as int);
    assert(started.take(started.len() as int) =~= started);
}

/// The app of a request is none of those of the requests in front of it.
proof fn lemma_early_source(apps: Seq<Titled>, bundle_id: Seq<char>, k: int)
    requires
        0 <= k < icon_sources(apps).len(),
        is_early_source(icon_sources(apps), bundle_id, k),
    ensures
        bundle_id != icon_sources(apps)[k].bundle_id,
{
    let m = choose|m: int|
        0 <= m < k && bundle_id == (#[trigger] icon_sources(apps)[m]).bundle_id;
    law_no_icon_is_asked_for_twice(apps, m, k);
}

proof fn lemma_recorded_prefix<E>(
    apps: Seq<Titled>,
    started: Seq<(IconRequest, Result<DataRequest<Vec<u8>>, E>)>,
    k: int,
)
    requires
        requests_for(requests_of(started), icon_sources(apps)),
        started.len() <= 0xffff_ffff,
        0 <= k <= started.len(),
    ensures
        one_icon_each(all_recorded(started.take(k)).0),
        numbers_differ(all_recorded(started.take(k)).1),
        one_request_each(all_recorded(started.take(k)).1),
        loaded_or_pending(all_recorded(started.take(k)).0, all_recorded(started.take(k)).1),
        forall|i: int|
            0 <= i < all_recorded(started.take(k)).0.len() ==> is_early_source(
                icon_sources(apps),
                (#[trigger] all_recorded(started.take(k)).0[i]).bundle_id@,
                k,
            ),
        forall|i: int|
            0 <= i < all_recorded(started.take(k)).1.len() ==> is_early_number(
                (#[trigger] all_recorded(started.take(k)).1[i]).0,
                k,
            ) && is_early_source(
                icon_sources(apps),
                all_recorded(started.take(k)).1[i].1@,
                k,
            ),
    decreases k,
{
    if k > 0 {
        let sources = icon_sources(apps);
        let front = started.take(k - 1);
        let (loaded, pending) = all_recorded(front);
        let (new_loaded, new_pending) = all_recorded(started.take(k));
        let request = started[k - 1].0;
        lemma_recorded_prefix(apps, started, k - 1);
        assert(started.take(k).drop_last() =~= front);
        assert(requests_of(started)[k - 1] == request);
        assert(request.request_id == icon_request_id(k - 1));
        assert(request.bundle_id@ == sources[k - 1].bundle_id);
        assert forall|i: int| 0 <= i < new_loaded.len() implies is_early_source(
            sources,
            (#[trigger] new_loaded[i]).bundle_id@,
            k,
        ) by {
            if i < loaded.len() {
                assert(new_loaded[i] == loaded[i]);
                assert(is_early_source(sources, loaded[i].bundle_id@, k - 1));
            }
        }
        assert forall|i: int| 0 <= i < new_pending.len() implies is_early_number(
            (#[trigger] new_pending[i]).0,
            k,
        ) && is_early_source(sources, new_pending[i].1@, k) by {
            if i < pending.len() {
                assert(new_pending[i] == pending[i]);
                assert(is_early_number(pending[i].0, k - 1));
                assert(is_early_source(sources, pending[i].1@, k - 1));
            }
        }
        assert forall|i: int| 0 <= i < loaded.len() implies (#[trigger] loaded[i]).bundle_id@
            != request.bundle_id@ by {
            lemma_early_source(apps, loaded[i].bundle_id@, k - 1);
        }
        assert forall|i: int| 0 <= i < pending.len() implies (#[trigger] pending[i]).1@
            != request.bundle_id@ by {
            lemma_early_source(apps, pending[i].1@, k - 1);
        }
        assert forall|i: int, j: int| 0 <= i < j < new_pending.len() implies (#[trigger] new_pending[i]).1@
            != (#[trigger] new_pending[j]).1@ by {
            assert(new_pending[i] == pending[i]);
            if j < pending.len() {
                assert(new_pending[j] == pending[j]);
            }
        }
        assert forall|i: int, j: int| 0 <= i < new_loaded.len() && 0 <= j < new_pending.len() implies (
        #[trigger] new_loaded[i]).bundle_id@ != (#[trigger] new_pending[j]).1@ by {
            if i < loaded.len() {
                assert(new_loaded[i] == loaded[i]);
            }
            if j < pending.len() {
                assert(new_pending[j] == pending[j]);
            }
        }
        assert forall|i: int, j: int| 0 <= i < j < new_loaded.len() implies (#[trigger] new_loaded[i]).bundle_id@
            != (#[trigger] new_loaded[j]).bundle_id@ by {
            assert(new_loaded[i] == loaded[i]);
            if j < loaded.len() {
                assert(new_loaded[j] == loaded[j]);
                assert(loaded[i].bundle_id@ != loaded[j].bundle_id@);
            }
        }
        assert forall|i: int, j: int| 0 <= i < j < new_pending.len() implies (#[trigger] new_pending[i]).0
            != (#[trigger] new_pending[j]).0 by {
            assert(new_pending[i] == pending[i]);
            if j < pending.len() {
                assert(new_pending[j] == pending[j]);
                assert(pending[i].0 != pending[j].0);
            } else {
                assert(is_early_number(pending[i].0, k - 1));
                let m = choose|m: int|
                    0 <= m < k - 1 && pending[i].0 == #[trigger] icon_request_id(m);
                law_icon_requests_differ(m, k - 1);
            }
        }
    }
}

/// A picture is an icon exactly when neither its width nor its height is over two thousand and
/// forty-eight pixels.
pub proof fn law_icons_are_small<I>(image: I, width: u32, height: u32)
    ensures
        width <= 2048 && height <= 2048 ==> small_enough(Some((image, width, height))) == Some(
            image,
        ),
        width > 2048 || height > 2048 ==> small_enough(Some((image, width, height))) is None,
        small_enough::<I>(None) is None,
{
}

/// The number of a request for an icon is `ICON` in its upper half, and in its lower half which of
/// the requests it is, from one on.
pub proof fn law_icon_request_numbers(i: int)
    requires
        0 <= i < 0xffff_ffff,
    ensures
        icon_request_id(i) == 0x4943_4f4e_0000_0000 + i + 1,
{
    let a = (i + 1) as u64;
    assert(0x4943_4f4e_0000_0000u64 | a == 0x4943_4f4e_0000_0000u64 + a) by (bit_vector)
        requires
            a <= 0xffff_ffffu64,
    ;
}

/// Each request carries its number, and asks for the icon that is its own.
pub proof fn law_requests_ask_for_their_icons(
    requests: Seq<IconRequest>,
    sources: Seq<IconSource>,
    i: int,
)
    requires
        requests_for(requests, sources),
        0 <= i < sources.len(),
    ensures
        requests.len() == sources.len(),
        requests[i].request_id == icon_request_id(i),
        requests[i].bundle_id@ == sources[i].bundle_id,
        requests[i].url@ == sources[i].url,
{
}

/// What is asked for is the icon of the first app with its bundle identifier that has one, at the
/// whole of its address.
pub proof fn law_first_icon_is_asked_for(apps: Seq<Titled>, i: int)
    requires
        0 <= i < icon_sources(apps).len(),
    ensures
        exists|k: int|
            0 <= k < apps.len() && (#[trigger] apps[k]).app.icon is Some && icon_sources(
                apps,
            )[i].bundle_id == apps[k].app.bundle_id@ && icon_sources(apps)[i].url
                == apps[k].app.icon->0@ && (forall|j: int|
                0 <= j < k && (#[trigger] apps[j]).app.bundle_id@ == apps[k].app.bundle_id@
                    ==> apps[j].app.icon is None),
{
    let k = lemma_source_place(apps, i);
    assert(apps[k].app.icon is Some);
}

/// Where the icon of a request comes from.
proof fn lemma_source_place(apps: Seq<Titled>, i: int) -> (k: int)
    requires
        0 <= i < icon_sources(apps).len(),
    ensures
        0 <= k < apps.len(),
        apps[k].app.icon is Some,
        icon_sources(apps)[i].bundle_id == apps[k].app.bundle_id@,
        icon_sources(apps)[i].url == apps[k].app.icon->0@,
        forall|j: int|
            0 <= j < k && (#[trigger] apps[j]).app.bundle_id@ == apps[k].app.bundle_id@
                ==> apps[j].app.icon is None,
    decreases apps.len(),
{
    let front = apps.drop_last();
    let before = icon_sources(front);
    if i < before.len() {
        let k = lemma_source_place(front, i);
        assert(icon_sources(apps)[i] == before[i]);
        assert forall|j: int| 0 <= j < k && (#[trigger] apps[j]).app.bundle_id@
            == apps[k].app.bundle_id@ implies apps[j].app.icon is None by {
            assert(front[j] == apps[j]);
        }
        k
    } else {
        let k = apps.len() - 1;
        assert forall|j: int| 0 <= j < k && (#[trigger] apps[j]).app.bundle_id@
            == apps[k].app.bundle_id@ implies apps[j].app.icon is None by {
            assert(front[j] == apps[j]);
            if apps[j].app.icon is Some {
                law_every_icon_is_asked_for(front, j);
            }
        }
        k
    }
}

/// Icons are asked for in the order of the apps: of two requests, the app of the first has an icon
/// in front of the first icon that the app of the second has.
pub proof fn law_icons_are_asked_for_in_order(apps: Seq<Titled>, i: int, j: int)
    requires
        0 <= i < j < icon_sources(apps).len(),
    ensures
        exists|k: int, l: int|
            0 <= k < l < apps.len() && (#[trigger] apps[k]).app.icon is Some && (
            #[trigger] apps[l]).app.icon is Some && apps[k].app.bundle_id@ == icon_sources(
                apps,
            )[i].bundle_id && apps[l].app.bundle_id@ == icon_sources(apps)[j].bundle_id && (forall|
                m: int,
            |
                0 <= m < l && (#[trigger] apps[m]).app.bundle_id@ == apps[l].app.bundle_id@
                    ==> apps[m].app.icon is None),
    decreases apps.len(),
{
    let front = apps.drop_last();
    let before = icon_sources(front);
    assert(icon_sources(apps)[i] == before[i]);
    if j < before.len() {
        assert(icon_sources(apps)[j] == before[j]);
        law_icons_are_asked_for_in_order(front, i, j);
        let (k, l) = choose|k: int, l: int|
            0 <= k < l < front.len() && (#[trigger] front[k]).app.icon is Some && (
            #[trigger] front[l]).app.icon is Some && front[k].app.bundle_id@ == before[i].bundle_id
                && front[l].app.bundle_id@ == before[j].bundle_id && (forall|m: int|
                0 <= m < l && (#[trigger] front[m]).app.bundle_id@ == front[l].app.bundle_id@
                    ==> front[m].app.icon is None);
        assert(apps[k] == front[k] && apps[l] == front[l]);
        assert forall|m: int| 0 <= m < l && (#[trigger] apps[m]).app.bundle_id@
            == apps[l].app.bundle_id@ implies apps[m].app.icon is None by {
            assert(front[m] == apps[m]);
        }
    } else {
        let k = lemma_source_place(front, i);
        let l = lemma_source_place(apps, j);
        assert(apps[k] == front[k]);
        if l < front.len() {
            assert(front[l] == apps[l]);
            law_every_icon_is_asked_for(front, l);
        }
        assert(apps[k].app.icon is Some && apps[l].app.icon is Some);
    }
}

/// The icon of an app is the first one that is there under its bundle identifier.
pub proof fn law_icon_is_the_first_of_the_app<I>(
    icons: Seq<LoadedIcon<I>>,
    bundle_id: Seq<char>,
    i: int,
)
    requires
        0 <= i <= icons.len(),
        forall|k: int| 0 <= k < i ==> (#[trigger] icons[k]).bundle_id@ != bundle_id,
        i < icons.len() ==> icons[i].bundle_id@ == bundle_id,
    ensures
        i < icons.len() ==> icon_of(icons, bundle_id) == Some(icons[i].image),
        i == icons.len() ==> icon_of(icons, bundle_id) is None,
{
    lemma_first_icon(icons, bundle_id, i);
}

/// A new icon takes one place: that of the app's first icon, or one behind all others where the
/// app has none. All other places stay as they are.
pub proof fn law_new_icon_takes_one_place<I>(
    icons: Seq<LoadedIcon<I>>,
    icon: LoadedIcon<I>,
    i: int,
)
    requires
        0 <= i <= icons.len(),
        forall|k: int| 0 <= k < i ==> (#[trigger] icons[k]).bundle_id@ != icon.bundle_id@,
        i < icons.len() ==> icons[i].bundle_id@ == icon.bundle_id@,
    ensures
        ({
            let after = with_icon(icons, icon);
            &&& after.len() == (if i < icons.len() {
                icons.len()
            } else {
                icons.len() + 1
            })
            &&& after[i].image == icon.image
            &&& after[i].bundle_id@ == icon.bundle_id@
            &&& forall|k: int| 0 <= k < icons.len() && k != i ==> after[k] == #[trigger] icons[k]
        }),
{
    lemma_first_icon(icons, icon.bundle_id@, i);
}

/// A request that was started is pending where its answer is still to come, brings an icon where
/// its answer is one, and leaves nothing else behind.
pub proof fn law_started_request_is_recorded<I, E>(
    loaded: Seq<LoadedIcon<I>>,
    pending: Seq<(u64, String)>,
    request: IconRequest,
    image: I,
    error: E,
)
    ensures
        recorded::<I, E>(loaded, pending, request, Ok(DataRequest::Pending)) == (
            loaded,
            pending.push((request.request_id, request.bundle_id)),
        ),
        recorded::<I, E>(loaded, pending, request, Ok(DataRequest::Ready(Some(image)))) == (
            loaded.push(LoadedIcon { bundle_id: request.bundle_id, image }),
            pending,
        ),
        recorded::<I, E>(loaded, pending, request, Ok(DataRequest::Ready(None))) == (
            loaded,
            pending,
        ),
        recorded::<I, E>(loaded, pending, request, Err(error)) == (loaded, pending),
{
}

/// Requests are recorded one after the other. An answer that came at once is an icon where its
/// bytes are a picture that is small enough.
pub proof fn law_requests_are_recorded_in_turn<E>(
    started: Seq<(IconRequest, Result<DataRequest<Vec<u8>>, E>)>,
    request: IconRequest,
    bytes: Vec<u8>,
    error: E,
)
    ensures
        ({
            let (loaded, pending) = all_recorded(started);
            &&& all_recorded(Seq::<(IconRequest, Result<DataRequest<Vec<u8>>, E>)>::empty()) == (
                Seq::<LoadedIcon<ImageData>>::empty(),
                Seq::<(u64, String)>::empty(),
            )
            &&& all_recorded(started.push((request, Ok(DataRequest::Pending)))) == (
                loaded,
                pending.push((request.request_id, request.bundle_id)),
            )
            &&& all_recorded(started.push((request, Err(error)))) == (loaded, pending)
            &&& all_recorded(started.push((request, Ok(DataRequest::Ready(bytes))))) == (
            match decoded_image(bytes@) {
                Some((image, width, height)) => if width <= 2048 && height <= 2048 {
                    (loaded.push(LoadedIcon { bundle_id: request.bundle_id, image }), pending)
                } else {
                    (loaded, pending)
                },
                None => (loaded, pending),
            })
        }),
{
    assert(started.push((request, Ok(DataRequest::Pending))).drop_last() =~= started);
    assert(started.push((request, Err(error))).drop_last() =~= started);
    assert(started.push((request, Ok(DataRequest::Ready(bytes)))).drop_last() =~= started);
}

/// An answer is for the first pending request with its number. It gives that request's app its
/// picture, where it brought one, and no other app anything; the request is then gone. An answer
/// that no request is pending for changes nothing.
pub proof fn law_answer_is_for_its_request<I>(
    loaded: Seq<LoadedIcon<I>>,
    pending: Seq<(u64, String)>,
    request_id: u64,
    image: I,
    i: int,
    other: Seq<char>,
)
    requires
        0 <= i <= pending.len(),
        forall|k: int| 0 <= k < i ==> (#[trigger] pending[k]).0 != request_id,
        i < pending.len() ==> pending[i].0 == request_id,
    ensures
        first_pending(pending, request_id) == i,
        settled(loaded, pending, request_id, None) == loaded,
        i == pending.len() ==> settled(loaded, pending, request_id, Some(image)) == loaded
            && without_pending(pending, request_id) == pending,
        i < pending.len() ==> {
            let after = settled(loaded, pending, request_id, Some(image));
            &&& icon_of(after, pending[i].1@) == Some(image)
            &&& other != pending[i].1@ ==> icon_of(after, other) == icon_of(loaded, other)
            &&& without_pending(pending, request_id).len() == pending.len() - 1
            &&& forall|k: int|
                0 <= k < pending.len() && k != i ==> without_pending(
                    pending,
                    request_id,
                ).contains(#[trigger] pending[k])
        },
{
    lemma_first_pending(pending, request_id, i);
    if i < pending.len() {
        law_new_icon_is_shown(loaded, LoadedIcon { bundle_id: pending[i].1, image }, other);
        let after = without_pending(pending, request_id);
        assert forall|k: int| 0 <= k < pending.len() && k != i implies after.contains(
            #[trigger] pending[k],
        ) by {
            if k == pending.len() - 1 {
                assert(after[i] == pending[k]);
            } else {
                assert(after[k] == pending[k]);
            }
        }
    }
}

/// An answer that came later brings an icon where its bytes are a picture that is small enough.
pub proof fn law_late_answer_brings_its_icon<E>(bytes: Vec<u8>, error: E)
    ensures
        finished_icon::<E>(Err(error)) is None,
        finished_icon::<E>(Ok(bytes)) == match decoded_image(bytes@) {
            Some((image, width, height)) => if width <= 2048 && height <= 2048 {
                Some(image)
            } else {
                None
            },
            None => None,
        },
{
}

} // verus!
