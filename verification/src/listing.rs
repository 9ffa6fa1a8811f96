//! Which apps the store shows, and under which titles.

use vstd::hash_set::StringHashSet;
use vstd::prelude::*;

use crate::catalog::{CatalogApp, Storefront, StorefrontSection};
use crate::text;

verus! {

/// What a search looks for: the query without the white space around it, in lower case.
pub open spec fn needle(query: Seq<char>) -> Seq<char> {
    text::lowered(text::trimmed(query))
}

/// Whether a search finds a text. The case of ASCII letters does not matter.
pub open spec fn found_in(field: Seq<char>, query: Seq<char>) -> bool {
    text::contains_text(text::lowered(field), needle(query))
}

/// Whether a search finds an app: nothing is searched for, or it stands in the app's name,
/// developer, description, subtitle or bundle identifier.
pub open spec fn finds(query: Seq<char>, app: CatalogApp) -> bool {
    ||| needle(query).len() == 0
    ||| found_in(app.name@, query)
    ||| found_in(app.developer@, query)
    ||| found_in(app.description@, query)
    ||| app.subtitle is Some && found_in(app.subtitle->0@, query)
    ||| found_in(app.bundle_id@, query)
}

/// Whether `needle` stands in the lower case of `field`.
fn field_contains(field: &str, needle: &Vec<char>) -> (found: bool)
    ensures
        found == text::contains_text(text::lowered(field@), needle@),
{
    text::contains_chars(&text::lower_chars(field), needle)
}

/// Whether a search finds an app.
pub fn app_matches_search(app: &CatalogApp, query: &str) -> (matches: bool)
    ensures
        matches == finds(query@, *app),
{
    let trimmed = text::trim(query);
    let needle = text::lower_chars(trimmed.as_str());
    if needle.is_empty() {
        return true;
    }
    let in_subtitle = match &app.subtitle {
        Some(subtitle) => field_contains(subtitle.as_str(), &needle),
        None => false,
    };
    field_contains(app.name.as_str(), &needle) || field_contains(app.developer.as_str(), &needle)
        || field_contains(app.description.as_str(), &needle) || in_subtitle || field_contains(
        app.bundle_id.as_str(),
        &needle,
    )
}

/// An app together with a title: of its section in the storefront, or of its group on the screen.
pub struct Titled {
    pub title: Seq<char>,
    pub app: CatalogApp,
}

/// The apps of a section under the section's title.
pub open spec fn section_apps(section: StorefrontSection) -> Seq<Titled> {
    section.apps@.map_values(|app: CatalogApp| Titled { title: section.title@, app })
}

/// All apps of these sections in order.
pub open spec fn all_apps(sections: Seq<StorefrontSection>) -> Seq<Titled>
    decreases sections.len(),
{
    if sections.len() == 0 {
        Seq::empty()
    } else {
        all_apps(sections.drop_last()) + section_apps(sections.last())
    }
}

/// Whether an app is to be shown for a query and, where one is chosen, a category.
pub open spec fn wanted(app: CatalogApp, query: Seq<char>, category: Option<Seq<char>>) -> bool {
    &&& category is Some ==> app.category@ == category->0
    &&& finds(query, app)
}

/// The title under which an app is shown: its category, or its section's title where it has no
/// category to speak of.
pub open spec fn group_title(section_title: Seq<char>, app: CatalogApp) -> Seq<char> {
    if text::trimmed(app.category@).len() == 0 {
        section_title
    } else {
        app.category@
    }
}

/// Whether an app with this bundle identifier is listed.
pub open spec fn lists(listed: Seq<Titled>, bundle_id: Seq<char>) -> bool {
    exists|i: int| 0 <= i < listed.len() && #[trigger] listed[i].app.bundle_id@ == bundle_id
}

/// The apps to be shown, in order, each under the title of its group. Of several wanted apps with
/// one bundle identifier only the first is listed.
pub open spec fn listing(
    apps: Seq<Titled>,
    query: Seq<char>,
    category: Option<Seq<char>>,
) -> Seq<Titled>
    decreases apps.len(),
{
    if apps.len() == 0 {
        Seq::empty()
    } else {
        let before = listing(apps.drop_last(), query, category);
        let last = apps.last();
        if wanted(last.app, query, category) && !lists(before, last.app.bundle_id@) {
            before.push(Titled { title: group_title(last.title, last.app), app: last.app })
        } else {
            before
        }
    }
}

/// The titles of a listing, each once, in the order in which they first occur.
pub open spec fn titles(listed: Seq<Titled>) -> Seq<Seq<char>>
    decreases listed.len(),
{
    if listed.len() == 0 {
        Seq::empty()
    } else {
        let before = titles(listed.drop_last());
        if before.contains(listed.last().title) {
            before
        } else {
            before.push(listed.last().title)
        }
    }
}

/// The apps of a listing that stand under a title, in order.
pub open spec fn apps_under(listed: Seq<Titled>, title: Seq<char>) -> Seq<CatalogApp>
    decreases listed.len(),
{
    if listed.len() == 0 {
        Seq::empty()
    } else {
        let before = apps_under(listed.drop_last(), title);
        if listed.last().title == title {
            before.push(listed.last().app)
        } else {
            before
        }
    }
}

/// A listing in groups: every title with its apps.
pub open spec fn groups_of(listed: Seq<Titled>) -> Seq<(Seq<char>, Seq<CatalogApp>)> {
    titles(listed).map_values(|title: Seq<char>| (title, apps_under(listed, title)))
}

/// The groups that the store shows of a storefront.
pub open spec fn shown_groups(
    storefront: Storefront,
    query: Seq<char>,
    category: Option<Seq<char>>,
) -> Seq<(Seq<char>, Seq<CatalogApp>)> {
    groups_of(listing(all_apps(storefront.sections@), query, category))
}

/// A group with the characters of its title and with the apps themselves.
pub open spec fn group_view(group: (String, Vec<&CatalogApp>)) -> (Seq<char>, Seq<CatalogApp>) {
    (group.0@, group.1@.map_values(|app: &CatalogApp| *app))
}

/// Groups with the characters of their titles and with the apps themselves.
pub open spec fn groups_view(groups: Seq<(String, Vec<&CatalogApp>)>) -> Seq<
    (Seq<char>, Seq<CatalogApp>),
> {
    groups.map_values(|group: (String, Vec<&CatalogApp>)| group_view(group))
}

/// The titles of a listing differ, and no app stands under any other title.
proof fn lemma_titles(listed: Seq<Titled>)
    ensures
        titles(listed).no_duplicates(),
        forall|title: Seq<char>|
            !(#[trigger] titles(listed).contains(title)) ==> apps_under(listed, title).len() == 0,
    decreases listed.len(),
{
    if listed.len() > 0 {
        let before = titles(listed.drop_last());
        lemma_titles(listed.drop_last());
        assert forall|title: Seq<char>| !(#[trigger] titles(listed).contains(title)) implies apps_under(
            listed,
            title,
        ).len() == 0 by {
            if before.contains(listed.last().title) {
                assert(titles(listed) == before);
            } else {
                assert(titles(listed) == before.push(listed.last().title));
                assert(titles(listed)[before.len() as int] == listed.last().title);
                if before.contains(title) {
                    let i = before.index_of(title);
                    assert(titles(listed)[i] == title);
                }
            }
        }
    }
}

/// What one more app does to the groups of a listing.
proof fn lemma_groups_push(listed: Seq<Titled>, entry: Titled)
    ensures
        ({
            let groups = groups_of(listed);
            let longer = groups_of(listed.push(entry));
            &&& forall|i: int, j: int|
                0 <= i < groups.len() && 0 <= j < groups.len() && i != j ==> #[trigger] groups[i].0
                    != #[trigger] groups[j].0
            &&& forall|i: int|
                0 <= i < groups.len() && (#[trigger] groups[i]).0 == entry.title ==> longer
                    == groups.update(i, (entry.title, groups[i].1.push(entry.app)))
            &&& (forall|i: int| 0 <= i < groups.len() ==> (#[trigger] groups[i]).0 != entry.title)
                ==> longer == groups.push((entry.title, seq![entry.app]))
        }),
{
    let longer = listed.push(entry);
    assert(longer.drop_last() =~= listed);
    assert(longer.last() == entry);
    lemma_titles(listed);
    let groups = groups_of(listed);
    assert forall|i: int|
        0 <= i < groups.len() && (#[trigger] groups[i]).0 == entry.title implies groups_of(longer)
        == groups.update(i, (entry.title, groups[i].1.push(entry.app))) by {
        assert(titles(listed)[i] == entry.title);
        assert(titles(longer) == titles(listed));
        assert(groups_of(longer) =~= groups.update(i, (entry.title, groups[i].1.push(entry.app))));
    }
    if forall|i: int| 0 <= i < groups.len() ==> (#[trigger] groups[i]).0 != entry.title {
        assert(!titles(listed).contains(entry.title)) by {
            if titles(listed).contains(entry.title) {
                let i = titles(listed).index_of(entry.title);
                assert(groups[i].0 == entry.title);
            }
        }
        assert(titles(longer) == titles(listed).push(entry.title));
        assert(apps_under(longer, entry.title) =~= seq![entry.app]);
        assert forall|i: int| 0 <= i < groups.len() implies groups_of(longer)[i] == #[trigger] groups[i] by {
            assert(titles(longer)[i] == titles(listed)[i]);
            assert(groups[i].0 != entry.title);
        }
        assert(groups_of(longer) =~= groups.push((entry.title, seq![entry.app])));
    }
}

/// Puts one more app into its group, a new one where there is none with its title.
fn add_to_groups<'a>(
    groups: &mut Vec<(String, Vec<&'a CatalogApp>)>,
    title: String,
    app: &'a CatalogApp,
    listed: Ghost<Seq<Titled>>,
)
    requires
        groups_view(old(groups)@) == groups_of(listed@),
    ensures
        groups_view(final(groups)@) == groups_of(listed@.push(Titled { title: title@, app: *app })),
{
    let ghost entry = Titled { title: title@, app: *app };
    let ghost before = groups@;
    proof {
        lemma_groups_push(listed@, entry);
    }
    let mut i: usize = 0;
    while i < groups.len()
        invariant
            i <= groups@.len(),
            groups@ == before,
            forall|k: int| 0 <= k < i ==> #[trigger] groups_view(before)[k].0 != title@,
        ensures
            i <= groups@.len(),
            groups@ == before,
            forall|k: int| 0 <= k < i ==> #[trigger] groups_view(before)[k].0 != title@,
            i < groups@.len() ==> groups_view(before)[i as int].0 == title@,
        decreases groups@.len() - i,
    {
        assert(groups_view(before)[i as int] == group_view(before[i as int]));
        if text::same_text(groups[i].0.as_str(), title.as_str()) {
            break;
        }
        i += 1;
    }
    let ghost view = groups_view(before);
    if i < groups.len() {
        groups[i].1.push(app);
        proof {
            assert(group_view(groups@[i as int]).1 =~= view[i as int].1.push(*app));
            assert(groups_view(groups@) =~= view.update(
                i as int,
                (entry.title, view[i as int].1.push(entry.app)),
            ));
        }
    } else {
        let mut apps: Vec<&'a CatalogApp> = Vec::new();
        apps.push(app);
        groups.push((title, apps));
        proof {
            assert(group_view(groups@[i as int]).1 =~= seq![*app]);
            assert(groups_view(groups@) =~= view.push((entry.title, seq![entry.app])));
        }
    }
}

/// The apps that the store shows of a storefront, in groups.
pub fn grouped_apps<'a>(storefront: &'a Storefront, query: &str, category: Option<&str>) -> (groups:
    Vec<(String, Vec<&'a CatalogApp>)>)
    ensures
        groups_view(groups@) == shown_groups(
            *storefront,
            query@,
            match category {
                Some(category) => Some(category@),
                None => None,
            },
        ),
{
    let ghost chosen = match category {
        Some(category) => Some(category@),
        None => None,
    };
    let mut groups: Vec<(String, Vec<&'a CatalogApp>)> = Vec::new();
    let mut seen = StringHashSet::new();
    let ghost mut apps: Seq<Titled> = Seq::empty();
    let mut s: usize = 0;
    assert(groups_view(groups@) =~= groups_of(listing(apps, query@, chosen)));
    while s < storefront.sections.len()
        invariant
            s <= storefront.sections@.len(),
            apps == all_apps(storefront.sections@.take(s as int)),
            groups_view(groups@) == groups_of(listing(apps, query@, chosen)),
            forall|id: Seq<char>| #[trigger]
                seen@.contains(id) <==> lists(listing(apps, query@, chosen), id),
            chosen == match category {
                Some(category) => Some(category@),
                None => None,
            },
        decreases storefront.sections@.len() - s,
    {
        let section: &'a StorefrontSection = &storefront.sections[s];
        let ghost front = apps;
        let mut a: usize = 0;
        while a < section.apps.len()
            invariant
                a <= section.apps@.len(),
                apps == front + section_apps(*section).take(a as int),
                groups_view(groups@) == groups_of(listing(apps, query@, chosen)),
                forall|id: Seq<char>| #[trigger]
                    seen@.contains(id) <==> lists(listing(apps, query@, chosen), id),
                chosen == match category {
                    Some(category) => Some(category@),
                    None => None,
                },
            decreases section.apps@.len() - a,
        {
            let app: &'a CatalogApp = &section.apps[a];
            let ghost titled = Titled { title: section.title@, app: *app };
            let ghost before = listing(apps, query@, chosen);
            let ghost longer = apps.push(titled);
            proof {
                assert(section_apps(*section)[a as int] == titled);
                assert(section_apps(*section).take(a + 1) =~= section_apps(*section).take(
                    a as int,
                ).push(titled));
                assert(front + section_apps(*section).take(a + 1) =~= longer);
                assert(longer.drop_last() == apps);
            }
            let in_category = match category {
                Some(category) => text::same_text(app.category.as_str(), category),
                None => true,
            };
            if in_category && app_matches_search(app, query) && seen.insert(app.bundle_id.clone()) {
                let title = if text::is_blank(app.category.as_str()) {
                    section.title.clone()
                } else {
                    app.category.clone()
                };
                let ghost entry = Titled { title: title@, app: *app };
                add_to_groups(&mut groups, title, app, Ghost(before));
                assert(listing(longer, query@, chosen) == before.push(entry));
                assert forall|id: Seq<char>| #[trigger] seen@.contains(id) <==> lists(
                    listing(longer, query@, chosen),
                    id,
                ) by {
                    let after = before.push(entry);
                    if lists(before, id) {
                        let i = choose|i: int|
                            0 <= i < before.len() && #[trigger] before[i].app.bundle_id@ == id;
                        assert(after[i].app.bundle_id@ == id);
                    }
                    assert(after[before.len() as int].app.bundle_id@ == app.bundle_id@);
                }
            } else {
                assert(listing(longer, query@, chosen) == before);
            }
            proof {
                apps = longer;
            }
            a += 1;
        }
        assert(storefront.sections@.take(s + 1).drop_last() == storefront.sections@.take(s as int));
        assert(section_apps(*section).take(a as int) =~= section_apps(*section));
        s += 1;
    }
    assert(storefront.sections@.take(s as int) == storefront.sections@);
    groups
}

/// The first wanted app with a bundle identifier.
pub open spec fn first_wanted(
    apps: Seq<Titled>,
    query: Seq<char>,
    category: Option<Seq<char>>,
    bundle_id: Seq<char>,
) -> Option<CatalogApp>
    decreases apps.len(),
{
    if apps.len() == 0 {
        None
    } else {
        let before = first_wanted(apps.drop_last(), query, category, bundle_id);
        let last = apps.last().app;
        if before is None && wanted(last, query, category) && last.bundle_id@ == bundle_id {
            Some(last)
        } else {
            before
        }
    }
}

/// The first app of a storefront that is wanted and has this bundle identifier.
pub fn find_app<'a>(
    storefront: &'a Storefront,
    query: &str,
    category: Option<&str>,
    bundle_id: &str,
) -> (found: Option<&'a CatalogApp>)
    ensures
        (match found {
            Some(app) => Some(*app),
            None => None,
        }) == first_wanted(
            all_apps(storefront.sections@),
            query@,
            match category {
                Some(category) => Some(category@),
                None => None,
            },
            bundle_id@,
        ),
{
    let ghost chosen = match category {
        Some(category) => Some(category@),
        None => None,
    };
    let mut found: Option<&'a CatalogApp> = None;
    let ghost mut apps: Seq<Titled> = Seq::empty();
    let mut s: usize = 0;
    while s < storefront.sections.len()
        invariant
            s <= storefront.sections@.len(),
            apps == all_apps(storefront.sections@.take(s as int)),
            (match found {
                Some(app) => Some(*app),
                None => None,
            }) == first_wanted(apps, query@, chosen, bundle_id@),
            chosen == match category {
                Some(category) => Some(category@),
                None => None,
            },
        decreases storefront.sections@.len() - s,
    {
        let section: &'a StorefrontSection = &storefront.sections[s];
        let ghost front = apps;
        let mut a: usize = 0;
        while a < section.apps.len()
            invariant
                a <= section.apps@.len(),
                apps == front + section_apps(*section).take(a as int),
                (match found {
                    Some(app) => Some(*app),
                    None => None,
                }) == first_wanted(apps, query@, chosen, bundle_id@),
                chosen == match category {
                    Some(category) => Some(category@),
                    None => None,
                },
            decreases section.apps@.len() - a,
        {
            let app: &'a CatalogApp = &section.apps[a];
            let ghost titled = Titled { title: section.title@, app: *app };
            let ghost longer = apps.push(titled);
            proof {
                assert(section_apps(*section)[a as int] == titled);
                assert(section_apps(*section).take(a + 1) =~= section_apps(*section).take(
                    a as int,
                ).push(titled));
                assert(front + section_apps(*section).take(a + 1) =~= longer);
                assert(longer.drop_last() == apps);
            }
            let in_category = match category {
                Some(category) => text::same_text(app.category.as_str(), category),
                None => true,
            };
            if found.is_none() && in_category && text::same_text(app.bundle_id.as_str(), bundle_id)
                && app_matches_search(app, query) {
                found = Some(app);
            }
            proof {
                apps = longer;
            }
            a += 1;
        }
        assert(storefront.sections@.take(s + 1).drop_last() == storefront.sections@.take(s as int));
        assert(section_apps(*section).take(a as int) =~= section_apps(*section));
        s += 1;
    }
    assert(storefront.sections@.take(s as int) == storefront.sections@);
    found
}

/// What a listing is made of.
proof fn lemma_listing(apps: Seq<Titled>, query: Seq<char>, category: Option<Seq<char>>)
    ensures
        forall|i: int, j: int|
            0 <= i < j < listing(apps, query, category).len() ==> #[trigger] listing(
                apps,
                query,
                category,
            )[i].app.bundle_id@ != #[trigger] listing(apps, query, category)[j].app.bundle_id@,
        forall|k: int|
            0 <= k < apps.len() && wanted((#[trigger] apps[k]).app, query, category) ==> lists(
                listing(apps, query, category),
                apps[k].app.bundle_id@,
            ),
        forall|i: int|
            0 <= i < listing(apps, query, category).len() ==> is_first_wanted(
                apps,
                query,
                category,
                #[trigger] listing(apps, query, category)[i],
            ),
    decreases apps.len(),
{
    if apps.len() > 0 {
        let front = apps.drop_last();
        let last = apps.last();
        let before = listing(front, query, category);
        let after = listing(apps, query, category);
        lemma_listing(front, query, category);
        assert forall|i: int| 0 <= i < after.len() implies is_first_wanted(
            apps,
            query,
            category,
            #[trigger] after[i],
        ) by {
            if i < before.len() {
                assert(after[i] == before[i]);
                let k = choose|k: int|
                    0 <= k < front.len() && is_first_wanted_at(front, query, category, before[i], k);
                assert(front[k] == apps[k]);
                assert forall|j: int| 0 <= j < k && wanted((#[trigger] apps[j]).app, query, category) implies apps[j].app.bundle_id@
                    != before[i].app.bundle_id@ by {
                    assert(front[j] == apps[j]);
                }
                assert(is_first_wanted_at(apps, query, category, after[i], k));
            } else {
                let k = apps.len() - 1;
                assert forall|j: int| 0 <= j < k && wanted((#[trigger] apps[j]).app, query, category) implies apps[j].app.bundle_id@
                    != last.app.bundle_id@ by {
                    assert(front[j] == apps[j]);
                }
                assert(is_first_wanted_at(apps, query, category, after[i], k));
            }
        }
        assert forall|k: int|
            0 <= k < apps.len() && wanted((#[trigger] apps[k]).app, query, category) implies lists(
            after,
            apps[k].app.bundle_id@,
        ) by {
            let id = apps[k].app.bundle_id@;
            if k < front.len() {
                assert(front[k] == apps[k]);
            }
            if lists(before, id) {
                let i = choose|i: int|
                    0 <= i < before.len() && #[trigger] before[i].app.bundle_id@ == id;
                assert(after[i] == before[i]);
            } else {
                assert(after[before.len() as int].app == last.app);
            }
        }
        assert forall|i: int, j: int| 0 <= i < j < after.len() implies #[trigger] after[i].app.bundle_id@
            != #[trigger] after[j].app.bundle_id@ by {
            assert(after[i] == before[i]);
            if j < before.len() {
                assert(after[j] == before[j]);
            }
        }
    }
}

/// Whether `listed` is the app at index `k`, which is wanted, under its group's title, and no
/// wanted app in front of it has its bundle identifier.
pub open spec fn is_first_wanted_at(
    apps: Seq<Titled>,
    query: Seq<char>,
    category: Option<Seq<char>>,
    listed: Titled,
    k: int,
) -> bool {
    &&& listed.app == apps[k].app
    &&& listed.title == group_title(apps[k].title, apps[k].app)
    &&& wanted(apps[k].app, query, category)
    &&& forall|j: int|
        0 <= j < k && wanted((#[trigger] apps[j]).app, query, category)
            ==> apps[j].app.bundle_id@ != listed.app.bundle_id@
}

/// Whether `listed` is the first wanted app with its bundle identifier.
pub open spec fn is_first_wanted(
    apps: Seq<Titled>,
    query: Seq<char>,
    category: Option<Seq<char>>,
    listed: Titled,
) -> bool {
    exists|k: int| 0 <= k < apps.len() && is_first_wanted_at(apps, query, category, listed, k)
}

/// Whether an app stands in a group of this title.
pub open spec fn stands_under(
    groups: Seq<(Seq<char>, Seq<CatalogApp>)>,
    title: Seq<char>,
    app: CatalogApp,
) -> bool {
    exists|g: int, a: int|
        0 <= g < groups.len() && groups[g].0 == title && 0 <= a < groups[g].1.len()
            && #[trigger] groups[g].1[a] == app
}

/// The groups hold the listing, every entry once.
proof fn lemma_groups(listed: Seq<Titled>)
    requires
        forall|i: int, j: int|
            0 <= i < j < listed.len() ==> #[trigger] listed[i].app.bundle_id@
                != #[trigger] listed[j].app.bundle_id@,
    ensures
        forall|i: int|
            0 <= i < listed.len() ==> stands_under(
                groups_of(listed),
                #[trigger] listed[i].title,
                listed[i].app,
            ),
        forall|g: int, a: int|
            0 <= g < groups_of(listed).len() && 0 <= a < groups_of(listed)[g].1.len()
                ==> is_entry(listed, groups_of(listed)[g].0, #[trigger] groups_of(listed)[g].1[a]),
        forall|g: int, a: int, h: int, b: int|
            0 <= g < groups_of(listed).len() && 0 <= a < groups_of(listed)[g].1.len() && 0 <= h
                < groups_of(listed).len() && 0 <= b < groups_of(listed)[h].1.len() && (
            #[trigger] groups_of(listed)[g].1[a]).bundle_id@ == (
            #[trigger] groups_of(listed)[h].1[b]).bundle_id@ ==> g == h && a == b,
        forall|g: int|
            0 <= g < groups_of(listed).len() ==> (#[trigger] groups_of(listed)[g]).1.len() > 0,
    decreases listed.len(),
{
    if listed.len() > 0 {
        let front = listed.drop_last();
        let entry = listed.last();
        assert(front.push(entry) =~= listed);
        assert forall|i: int, j: int| 0 <= i < j < front.len() implies #[trigger] front[i].app.bundle_id@
            != #[trigger] front[j].app.bundle_id@ by {
            assert(listed[i].app.bundle_id@ != listed[j].app.bundle_id@);
        }
        lemma_groups(front);
        lemma_groups_push(front, entry);
        let before = groups_of(front);
        let after = groups_of(listed);
        let at: int = if exists|g: int| 0 <= g < before.len() && (#[trigger] before[g]).0 == entry.title {
            choose|g: int| 0 <= g < before.len() && (#[trigger] before[g]).0 == entry.title
        } else {
            before.len() as int
        };
        let end: int = if at < before.len() {
            before[at].1.len() as int
        } else {
            0
        };
        // The new entry is the last of the group at `at`, and all else is as before.
        assert(after[at].0 == entry.title && after[at].1.len() == end + 1 && after[at].1[end]
            == entry.app);
        assert forall|g: int, a: int| 0 <= g < after.len() && 0 <= a < after[g].1.len() && !(g == at && a == end) implies g
            < before.len() && a < before[g].1.len() && before[g].0 == after[g].0
            && #[trigger] after[g].1[a] == before[g].1[a] by {}
        assert forall|g: int, a: int| 0 <= g < before.len() && 0 <= a < before[g].1.len() implies g
            < after.len() && a < after[g].1.len() && before[g].0 == after[g].0 && after[g].1[a]
            == #[trigger] before[g].1[a] by {}
        assert forall|i: int| 0 <= i < listed.len() implies stands_under(
            after,
            #[trigger] listed[i].title,
            listed[i].app,
        ) by {
            if i < front.len() {
                assert(front[i] == listed[i]);
                assert(stands_under(before, front[i].title, front[i].app));
                let (g, a) = choose|g: int, a: int|
                    0 <= g < before.len() && before[g].0 == front[i].title && 0 <= a
                        < before[g].1.len() && #[trigger] before[g].1[a] == front[i].app;
                assert(after[g].1[a] == listed[i].app);
            } else {
                assert(after[at].1[end] == listed[i].app);
            }
        }
        assert forall|g: int, a: int| 0 <= g < after.len() && 0 <= a < after[g].1.len() implies is_entry(
            listed,
            after[g].0,
            #[trigger] after[g].1[a],
        ) by {
            if g == at && a == end {
                assert(listed[front.len() as int] == entry);
            } else {
                assert(after[g].1[a] == before[g].1[a]);
                assert(is_entry(front, before[g].0, before[g].1[a]));
                let i = choose|i: int|
                    0 <= i < front.len() && #[trigger] front[i].title == before[g].0 && front[i].app
                        == before[g].1[a];
                assert(listed[i] == front[i]);
            }
        }
        assert forall|g: int, a: int, h: int, b: int|
            0 <= g < after.len() && 0 <= a < after[g].1.len() && 0 <= h < after.len() && 0 <= b
                < after[h].1.len() && (#[trigger] after[g].1[a]).bundle_id@ == (
            #[trigger] after[h].1[b]).bundle_id@ implies g == h && a == b by {
            let first_is_new = g == at && a == end;
            let second_is_new = h == at && b == end;
            if !first_is_new {
                assert(after[g].1[a] == before[g].1[a]);
                assert(is_entry(front, before[g].0, before[g].1[a]));
            }
            if !second_is_new {
                assert(after[h].1[b] == before[h].1[b]);
                assert(is_entry(front, before[h].0, before[h].1[b]));
            }
            if first_is_new && !second_is_new {
                lemma_new_identifier(listed, before[h].0, before[h].1[b]);
            }
            if second_is_new && !first_is_new {
                lemma_new_identifier(listed, before[g].0, before[g].1[a]);
            }
        }
    }
}

/// Whether a listing has this app under this title.
pub open spec fn is_entry(listed: Seq<Titled>, title: Seq<char>, app: CatalogApp) -> bool {
    exists|i: int|
        0 <= i < listed.len() && #[trigger] listed[i].title == title && listed[i].app == app
}

proof fn lemma_new_identifier(listed: Seq<Titled>, title: Seq<char>, app: CatalogApp)
    requires
        listed.len() > 0,
        is_entry(listed.drop_last(), title, app),
        forall|i: int, j: int|
            0 <= i < j < listed.len() ==> #[trigger] listed[i].app.bundle_id@
                != #[trigger] listed[j].app.bundle_id@,
    ensures
        app.bundle_id@ != listed.last().app.bundle_id@,
{
    let front = listed.drop_last();
    let i = choose|i: int|
        0 <= i < front.len() && #[trigger] front[i].title == title && front[i].app == app;
    assert(listed[i] == front[i]);
    assert(listed[i].app.bundle_id@ != listed[listed.len() - 1].app.bundle_id@);
}

/// No app is shown twice: the bundle identifiers of all apps in all groups differ.
pub proof fn law_no_app_is_shown_twice(
    storefront: Storefront,
    query: Seq<char>,
    category: Option<Seq<char>>,
    g: int,
    a: int,
    h: int,
    b: int,
)
    requires
        0 <= g < shown_groups(storefront, query, category).len(),
        0 <= a < shown_groups(storefront, query, category)[g].1.len(),
        0 <= h < shown_groups(storefront, query, category).len(),
        0 <= b < shown_groups(storefront, query, category)[h].1.len(),
        shown_groups(storefront, query, category)[g].1[a].bundle_id@ == shown_groups(
            storefront,
            query,
            category,
        )[h].1[b].bundle_id@,
    ensures
        g == h,
        a == b,
{
    let apps = all_apps(storefront.sections@);
    lemma_listing(apps, query, category);
    lemma_groups(listing(apps, query, category));
}

/// Whether an app with this bundle identifier is shown.
pub open spec fn shows(groups: Seq<(Seq<char>, Seq<CatalogApp>)>, bundle_id: Seq<char>) -> bool {
    exists|g: int, a: int|
        0 <= g < groups.len() && 0 <= a < groups[g].1.len() && (
        #[trigger] groups[g].1[a]).bundle_id@ == bundle_id
}

/// Every wanted app of the storefront is shown, itself or as an app with the same bundle
/// identifier.
pub proof fn law_every_wanted_app_is_shown(
    storefront: Storefront,
    query: Seq<char>,
    category: Option<Seq<char>>,
    k: int,
)
    requires
        0 <= k < all_apps(storefront.sections@).len(),
        wanted(all_apps(storefront.sections@)[k].app, query, category),
    ensures
        shows(
            shown_groups(storefront, query, category),
            all_apps(storefront.sections@)[k].app.bundle_id@,
        ),
{
    let apps = all_apps(storefront.sections@);
    let listed = listing(apps, query, category);
    let groups = groups_of(listed);
    lemma_listing(apps, query, category);
    lemma_groups(listed);
    let id = apps[k].app.bundle_id@;
    assert(lists(listed, id));
    let i = choose|i: int| 0 <= i < listed.len() && #[trigger] listed[i].app.bundle_id@ == id;
    assert(stands_under(groups, listed[i].title, listed[i].app));
    let (g, a) = choose|g: int, a: int|
        0 <= g < groups.len() && groups[g].0 == listed[i].title && 0 <= a < groups[g].1.len()
            && #[trigger] groups[g].1[a] == listed[i].app;
    assert(groups[g].1[a].bundle_id@ == id);
}

/// Nothing else is shown: every app in a group is the first wanted app of the storefront with its
/// bundle identifier, and the group's title is its category, or its section's title where it has
/// no category to speak of.
pub proof fn law_only_first_wanted_apps_are_shown(
    storefront: Storefront,
    query: Seq<char>,
    category: Option<Seq<char>>,
    g: int,
    a: int,
)
    requires
        0 <= g < shown_groups(storefront, query, category).len(),
        0 <= a < shown_groups(storefront, query, category)[g].1.len(),
    ensures
        is_first_wanted(
            all_apps(storefront.sections@),
            query,
            category,
            Titled {
                title: shown_groups(storefront, query, category)[g].0,
                app: shown_groups(storefront, query, category)[g].1[a],
            },
        ),
{
    let apps = all_apps(storefront.sections@);
    let listed = listing(apps, query, category);
    let groups = groups_of(listed);
    lemma_listing(apps, query, category);
    lemma_groups(listed);
    assert(is_entry(listed, groups[g].0, groups[g].1[a]));
    let i = choose|i: int|
        0 <= i < listed.len() && #[trigger] listed[i].title == groups[g].0 && listed[i].app
            == groups[g].1[a];
    assert(listed[i] == (Titled { title: groups[g].0, app: groups[g].1[a] }));
}

/// The first wanted app with its bundle identifier is the one that a search for that finds.
pub proof fn lemma_first_wanted(
    apps: Seq<Titled>,
    query: Seq<char>,
    category: Option<Seq<char>>,
    listed: Titled,
)
    requires
        is_first_wanted(apps, query, category, listed),
    ensures
        first_wanted(apps, query, category, listed.app.bundle_id@) == Some(listed.app),
    decreases apps.len(),
{
    let k = choose|k: int|
        0 <= k < apps.len() && is_first_wanted_at(apps, query, category, listed, k);
    let id = listed.app.bundle_id@;
    let front = apps.drop_last();
    if k < front.len() {
        assert forall|j: int| 0 <= j < k && wanted((#[trigger] front[j]).app, query, category) implies front[j].app.bundle_id@
            != id by {
            assert(front[j] == apps[j]);
        }
        assert(is_first_wanted_at(front, query, category, listed, k));
        lemma_first_wanted(front, query, category, listed);
    } else {
        lemma_none_wanted(apps, query, category, id, k);
        assert(apps.take(k) =~= front);
    }
}

/// What is found has the bundle identifier, and nothing is found only where nothing is wanted.
pub proof fn lemma_first_wanted_id(
    apps: Seq<Titled>,
    query: Seq<char>,
    category: Option<Seq<char>>,
    bundle_id: Seq<char>,
)
    ensures
        first_wanted(apps, query, category, bundle_id) matches Some(app) ==> app.bundle_id@
            == bundle_id,
        first_wanted(apps, query, category, bundle_id) is None ==> forall|k: int|
            0 <= k < apps.len() && wanted((#[trigger] apps[k]).app, query, category)
                ==> apps[k].app.bundle_id@ != bundle_id,
    decreases apps.len(),
{
    if apps.len() > 0 {
        let front = apps.drop_last();
        lemma_first_wanted_id(front, query, category, bundle_id);
        if first_wanted(apps, query, category, bundle_id) is None {
            assert forall|k: int| 0 <= k < apps.len() && wanted((#[trigger] apps[k]).app, query, category) implies apps[k].app.bundle_id@
                != bundle_id by {
                if k < front.len() {
                    assert(front[k] == apps[k]);
                }
            }
        }
    }
}

proof fn lemma_none_wanted(
    apps: Seq<Titled>,
    query: Seq<char>,
    category: Option<Seq<char>>,
    bundle_id: Seq<char>,
    k: int,
)
    requires
        0 <= k <= apps.len(),
        forall|j: int|
            0 <= j < k && wanted((#[trigger] apps[j]).app, query, category)
                ==> apps[j].app.bundle_id@ != bundle_id,
    ensures
        first_wanted(apps.take(k), query, category, bundle_id) is None,
    decreases k,
{
    if k > 0 {
        lemma_none_wanted(apps, query, category, bundle_id, k - 1);
        assert(apps.take(k).drop_last() =~= apps.take(k - 1));
        assert(apps.take(k).last() == apps[k - 1]);
    }
}

/// No title is shown twice, and none without an app.
pub proof fn law_titles_differ(storefront: Storefront, query: Seq<char>, category: Option<Seq<char>>)
    ensures
        forall|g: int, h: int|
            0 <= g < h < shown_groups(storefront, query, category).len() ==> (
            #[trigger] shown_groups(storefront, query, category)[g]).0 != (#[trigger] shown_groups(
                storefront,
                query,
                category,
            )[h]).0,
        forall|g: int|
            0 <= g < shown_groups(storefront, query, category).len() ==> (
            #[trigger] shown_groups(storefront, query, category)[g]).1.len() > 0,
{
    let apps = all_apps(storefront.sections@);
    let listed = listing(apps, query, category);
    lemma_listing(apps, query, category);
    lemma_groups(listed);
    lemma_titles(listed);
}

/// In a category all apps stand in one group under the category's name.
pub proof fn law_category_is_one_group(storefront: Storefront, query: Seq<char>, category: Seq<char>)
    requires
        text::trimmed(category).len() > 0,
    ensures
        shown_groups(storefront, query, Some(category)).len() <= 1,
        forall|g: int|
            0 <= g < shown_groups(storefront, query, Some(category)).len() ==> (
            #[trigger] shown_groups(storefront, query, Some(category))[g]).0 == category,
{
    let groups = shown_groups(storefront, query, Some(category));
    law_titles_differ(storefront, query, Some(category));
    assert forall|g: int| 0 <= g < groups.len() implies (#[trigger] groups[g]).0 == category by {
        assert(groups[g].1.len() > 0);
        law_only_first_wanted_apps_are_shown(storefront, query, Some(category), g, 0);
    }
    if groups.len() > 1 {
        assert(groups[0].0 != groups[1].0);
    }
}

/// A search for nothing but white space finds every app.
pub proof fn law_blank_search_finds_all(query: Seq<char>, app: CatalogApp)
    requires
        text::trimmed(query).len() == 0,
    ensures
        finds(query, app),
{
}

/// White space around a query and the case of its ASCII letters make no difference.
pub proof fn law_search_ignores_case_and_margins(query: Seq<char>, app: CatalogApp)
    ensures
        finds(text::lowered(query), app) == finds(query, app),
        finds(text::trimmed(query), app) == finds(query, app),
{
    text::lemma_trimmed_lowered(query);
    text::lemma_trimmed_trimmed(query);
    assert(text::lowered(text::lowered(text::trimmed(query))) =~= text::lowered(
        text::trimmed(query),
    ));
}

/// An app is found wherever what is searched for stands, whatever its other fields are: in its
/// name, its developer, its description, its bundle identifier, or its subtitle where it has one.
pub proof fn law_field_with_the_query_is_found(
    app: CatalogApp,
    query: Seq<char>,
    before: Seq<char>,
    word: Seq<char>,
    behind: Seq<char>,
)
    requires
        text::lowered(word) == text::lowered(text::trimmed(query)),
        app.name@ == before + word + behind || app.developer@ == before + word + behind
            || app.description@ == before + word + behind || app.bundle_id@ == before + word
            + behind || (app.subtitle matches Some(subtitle) && subtitle@ == before + word
            + behind),
    ensures
        finds(query, app),
{
    let whole = before + word + behind;
    assert(text::lowered(whole) =~= text::lowered(before) + text::lowered(word) + text::lowered(
        behind,
    ));
    text::law_contained_text(text::lowered(whole), needle(query));
    assert(text::contains_text(text::lowered(whole), needle(query)));
    assert(found_in(whole, query));
}

/// An app that is found holds what is searched for in one of those fields, or nothing is searched
/// for.
pub proof fn law_found_app_holds_the_query(app: CatalogApp, query: Seq<char>)
    requires
        finds(query, app),
        text::trimmed(query).len() > 0,
    ensures
        exists|before: Seq<char>, word: Seq<char>, behind: Seq<char>|
            text::lowered(word) == text::lowered(text::trimmed(query)) && {
                let field = #[trigger] (before + word + behind);
                ||| app.name@ == field
                ||| app.developer@ == field
                ||| app.description@ == field
                ||| app.bundle_id@ == field
                ||| app.subtitle matches Some(subtitle) && subtitle@ == field
            },
{
    let field = if found_in(app.name@, query) {
        app.name@
    } else if found_in(app.developer@, query) {
        app.developer@
    } else if found_in(app.description@, query) {
        app.description@
    } else if found_in(app.bundle_id@, query) {
        app.bundle_id@
    } else {
        app.subtitle->0@
    };
    assert(found_in(field, query));
    let i = choose|i: int| text::stands_at(text::lowered(field), needle(query), i);
    let n = needle(query).len() as int;
    let before = field.take(i);
    let word = field.subrange(i, i + n);
    let behind = field.skip(i + n);
    assert(field =~= before + word + behind);
    assert(text::lowered(word) =~= text::lowered(field).subrange(i, i + n));
}

/// The category and the search both decide, and each on its own.
pub proof fn law_category_and_search_both_decide(
    app: CatalogApp,
    query: Seq<char>,
    category: Seq<char>,
)
    ensures
        wanted(app, query, None) <==> finds(query, app),
        wanted(app, query, Some(category)) <==> app.category@ == category && finds(query, app),
{
}

/// Every app in a shown group is of the chosen category, where one is chosen, and is found by the
/// search, whether or not a category is chosen: nothing is searched for, or it stands in one of
/// the app's fields.
pub proof fn law_shown_apps_are_searched_for(
    storefront: Storefront,
    query: Seq<char>,
    category: Option<Seq<char>>,
    g: int,
    a: int,
)
    requires
        0 <= g < shown_groups(storefront, query, category).len(),
        0 <= a < shown_groups(storefront, query, category)[g].1.len(),
    ensures
        ({
            let app = shown_groups(storefront, query, category)[g].1[a];
            let word = text::lowered(text::trimmed(query));
            &&& category matches Some(name) ==> app.category@ == name
            &&& {
                ||| word.len() == 0
                ||| text::contains_text(text::lowered(app.name@), word)
                ||| text::contains_text(text::lowered(app.developer@), word)
                ||| text::contains_text(text::lowered(app.description@), word)
                ||| text::contains_text(text::lowered(app.bundle_id@), word)
                ||| app.subtitle matches Some(subtitle) && text::contains_text(
                    text::lowered(subtitle@),
                    word,
                )
            }
        }),
{
    law_only_first_wanted_apps_are_shown(storefront, query, category, g, a);
}

/// Every app of the storefront that is of the chosen category and holds what is searched for is
/// shown, itself or as an app with the same bundle identifier.
pub proof fn law_matching_apps_are_shown(
    storefront: Storefront,
    query: Seq<char>,
    category: Option<Seq<char>>,
    s: int,
    i: int,
)
    requires
        0 <= s < storefront.sections@.len(),
        0 <= i < storefront.sections@[s].apps@.len(),
        category matches Some(name) ==> storefront.sections@[s].apps@[i].category@ == name,
        finds(query, storefront.sections@[s].apps@[i]),
    ensures
        exists|g: int, a: int|
            0 <= g < shown_groups(storefront, query, category).len() && 0 <= a < shown_groups(
                storefront,
                query,
                category,
            )[g].1.len() && (#[trigger] shown_groups(storefront, query, category)[g].1[a]).bundle_id@
                == storefront.sections@[s].apps@[i].bundle_id@,
{
    law_apps_stand_in_order(storefront.sections@, s, i);
    let k = all_apps(storefront.sections@.take(s)).len() + i;
    law_every_wanted_app_is_shown(storefront, query, category, k);
    assert(shows(
        shown_groups(storefront, query, category),
        storefront.sections@[s].apps@[i].bundle_id@,
    ));
}

/// The apps of a storefront are those of its sections, section by section and in order, each
/// under its section's title.
pub proof fn law_apps_stand_in_order(sections: Seq<StorefrontSection>, s: int, i: int)
    requires
        0 <= s < sections.len(),
        0 <= i < sections[s].apps@.len(),
    ensures
        all_apps(Seq::empty()).len() == 0,
        all_apps(sections.take(s + 1)).len() == all_apps(sections.take(s)).len()
            + sections[s].apps@.len(),
        all_apps(sections.take(s)).len() + i < all_apps(sections).len(),
        all_apps(sections)[all_apps(sections.take(s)).len() + i] == (Titled {
            title: sections[s].title@,
            app: sections[s].apps@[i],
        }),
        all_apps(sections.take(s)).is_prefix_of(all_apps(sections)),
{
    lemma_all_apps_prefix(sections, s);
    lemma_all_apps_prefix(sections, s + 1);
    let upto = all_apps(sections.take(s + 1));
    let k = all_apps(sections.take(s)).len() + i;
    assert(sections.take(s + 1).drop_last() =~= sections.take(s));
    assert(upto[k] == section_apps(sections[s])[i]);
    assert(all_apps(sections)[k] == upto[k]);
}

proof fn lemma_all_apps_prefix(sections: Seq<StorefrontSection>, s: int)
    requires
        0 <= s <= sections.len(),
    ensures
        all_apps(sections.take(s)).is_prefix_of(all_apps(sections)),
    decreases sections.len(),
{
    let part = all_apps(sections.take(s));
    let whole = all_apps(sections);
    if s == sections.len() {
        assert(sections.take(s) =~= sections);
        assert(part =~= whole.take(part.len() as int));
    } else {
        let front = sections.drop_last();
        lemma_all_apps_prefix(front, s);
        assert(front.take(s) =~= sections.take(s));
        assert(part =~= whole.take(part.len() as int));
    }
}

/// An app that is shown is the first of the storefront that is of the chosen category and found,
/// among those with its bundle identifier. It stands under its category, or under the title of
/// its section where its category is nothing but white space.
pub proof fn law_shown_app_is_the_first(
    storefront: Storefront,
    query: Seq<char>,
    category: Option<Seq<char>>,
    g: int,
    a: int,
)
    requires
        0 <= g < shown_groups(storefront, query, category).len(),
        0 <= a < shown_groups(storefront, query, category)[g].1.len(),
    ensures
        ({
            let apps = all_apps(storefront.sections@);
            let title = shown_groups(storefront, query, category)[g].0;
            let app = shown_groups(storefront, query, category)[g].1[a];
            exists|k: int|
                0 <= k < apps.len() && (#[trigger] apps[k]).app == app && title == (
                if text::trimmed(app.category@).len() == 0 {
                    apps[k].title
                } else {
                    app.category@
                }) && (forall|j: int|
                    0 <= j < k && (#[trigger] apps[j]).app.bundle_id@ == app.bundle_id@ ==> !finds(
                        query,
                        apps[j].app,
                    ) || (category is Some && apps[j].app.category@ != category->0))
        }),
{
    law_only_first_wanted_apps_are_shown(storefront, query, category, g, a);
    let apps = all_apps(storefront.sections@);
    let listed = Titled {
        title: shown_groups(storefront, query, category)[g].0,
        app: shown_groups(storefront, query, category)[g].1[a],
    };
    let k = choose|k: int|
        0 <= k < apps.len() && is_first_wanted_at(apps, query, category, listed, k);
    assert(apps[k].app == listed.app);
}

/// A place is the only one at which an app can be the first wanted one with its identifier.
proof fn lemma_one_place(
    apps: Seq<Titled>,
    query: Seq<char>,
    category: Option<Seq<char>>,
    listed: Titled,
    j: int,
    k: int,
)
    requires
        0 <= j < apps.len(),
        0 <= k < apps.len(),
        is_first_wanted_at(apps, query, category, listed, j),
        is_first_wanted_at(apps, query, category, listed, k),
    ensures
        j == k,
{
    assert(apps[j].app == apps[k].app);
    if j < k {
        assert(wanted(apps[j].app, query, category));
    } else if k < j {
        assert(wanted(apps[k].app, query, category));
    }
}

/// The entries of a listing are in the order of the apps.
proof fn lemma_listing_order(
    apps: Seq<Titled>,
    query: Seq<char>,
    category: Option<Seq<char>>,
    i: int,
    j: int,
    p: int,
    q: int,
)
    requires
        0 <= i < j < listing(apps, query, category).len(),
        0 <= p < apps.len(),
        0 <= q < apps.len(),
        is_first_wanted_at(apps, query, category, listing(apps, query, category)[i], p),
        is_first_wanted_at(apps, query, category, listing(apps, query, category)[j], q),
    ensures
        p < q,
    decreases apps.len(),
{
    let front = apps.drop_last();
    let before = listing(front, query, category);
    let after = listing(apps, query, category);
    lemma_listing(front, query, category);
    assert(after[i] == before[i]);
    assert(is_first_wanted(front, query, category, before[i]));
    let m = choose|m: int|
        0 <= m < front.len() && is_first_wanted_at(front, query, category, before[i], m);
    lemma_place_in_front(apps, query, category, before[i], m);
    lemma_one_place(apps, query, category, after[i], p, m);
    if j < before.len() {
        assert(after[j] == before[j]);
        assert(is_first_wanted(front, query, category, before[j]));
        let n = choose|n: int|
            0 <= n < front.len() && is_first_wanted_at(front, query, category, before[j], n);
        lemma_place_in_front(apps, query, category, before[j], n);
        lemma_one_place(apps, query, category, after[j], q, n);
        lemma_listing_order(front, query, category, i, j, m, n);
    } else {
        if q < front.len() {
            assert(front[q] == apps[q]);
            assert(wanted(front[q].app, query, category));
            assert(lists(before, front[q].app.bundle_id@));
            assert(apps.last().app.bundle_id@ == after[j].app.bundle_id@);
        }
    }
}

proof fn lemma_place_in_front(
    apps: Seq<Titled>,
    query: Seq<char>,
    category: Option<Seq<char>>,
    listed: Titled,
    k: int,
)
    requires
        apps.len() > 0,
        0 <= k < apps.len() - 1,
        is_first_wanted_at(apps.drop_last(), query, category, listed, k),
    ensures
        is_first_wanted_at(apps, query, category, listed, k),
{
    let front = apps.drop_last();
    assert(front[k] == apps[k]);
    assert forall|j: int| 0 <= j < k && wanted((#[trigger] apps[j]).app, query, category) implies apps[j].app.bundle_id@
        != listed.app.bundle_id@ by {
        assert(front[j] == apps[j]);
    }
}

/// Under a title the apps are in the order of the listing.
proof fn lemma_under_order(listed: Seq<Titled>, title: Seq<char>, a: int, b: int) -> (places: (int, int))
    requires
        0 <= a < b < apps_under(listed, title).len(),
    ensures
        0 <= places.0 < places.1 < listed.len(),
        listed[places.0] == (Titled { title, app: apps_under(listed, title)[a] }),
        listed[places.1] == (Titled { title, app: apps_under(listed, title)[b] }),
    decreases listed.len(),
{
    let front = listed.drop_last();
    let before = apps_under(front, title);
    if b < before.len() {
        lemma_under_order(front, title, a, b)
    } else {
        (lemma_under_place(front, title, a), listed.len() - 1)
    }
}

proof fn lemma_under_place(listed: Seq<Titled>, title: Seq<char>, a: int) -> (place: int)
    requires
        0 <= a < apps_under(listed, title).len(),
    ensures
        0 <= place < listed.len(),
        listed[place] == (Titled { title, app: apps_under(listed, title)[a] }),
    decreases listed.len(),
{
    let front = listed.drop_last();
    if a < apps_under(front, title).len() {
        lemma_under_place(front, title, a)
    } else {
        listed.len() - 1
    }
}

/// The titles are in the order of their first apps.
proof fn lemma_titles_order(listed: Seq<Titled>, g: int, h: int) -> (places: (int, int))
    requires
        0 <= g < h < titles(listed).len(),
    ensures
        0 <= places.0 < places.1 < listed.len(),
        apps_under(listed, titles(listed)[g]).len() > 0,
        apps_under(listed, titles(listed)[h]).len() > 0,
        listed[places.0] == (Titled {
            title: titles(listed)[g],
            app: apps_under(listed, titles(listed)[g])[0],
        }),
        listed[places.1] == (Titled {
            title: titles(listed)[h],
            app: apps_under(listed, titles(listed)[h])[0],
        }),
    decreases listed.len(),
{
    let front = listed.drop_last();
    let before = titles(front);
    if h < before.len() {
        lemma_titles_order(front, g, h)
    } else {
        let place = lemma_title_place(front, g);
        lemma_titles(front);
        assert(!before.contains(listed.last().title));
        assert(apps_under(front, listed.last().title).len() == 0);
        (place, listed.len() - 1)
    }
}

proof fn lemma_title_place(listed: Seq<Titled>, g: int) -> (place: int)
    requires
        0 <= g < titles(listed).len(),
    ensures
        0 <= place < listed.len(),
        apps_under(listed, titles(listed)[g]).len() > 0,
        listed[place] == (Titled {
            title: titles(listed)[g],
            app: apps_under(listed, titles(listed)[g])[0],
        }),
    decreases listed.len(),
{
    let front = listed.drop_last();
    let before = titles(front);
    if g < before.len() {
        lemma_title_place(front, g)
    } else {
        lemma_titles(front);
        assert(!before.contains(listed.last().title));
        assert(apps_under(front, listed.last().title).len() == 0);
        listed.len() - 1
    }
}

/// Whether one app is shown for a place of the storefront in front of the first that the other can
/// be shown for: no app with the other's bundle identifier that is of the chosen category and found
/// stands as far in front.
pub open spec fn stands_before(
    apps: Seq<Titled>,
    query: Seq<char>,
    category: Option<Seq<char>>,
    first: CatalogApp,
    second: CatalogApp,
) -> bool {
    exists|j: int, k: int|
        0 <= j < k < apps.len() && (#[trigger] apps[j]).app == first && (#[trigger] apps[k]).app
            == second && (forall|i: int|
            0 <= i < k && (#[trigger] apps[i]).app.bundle_id@ == second.bundle_id@ ==> !finds(
                query,
                apps[i].app,
            ) || (category is Some && apps[i].app.category@ != category->0))
}

proof fn lemma_stands_before(
    apps: Seq<Titled>,
    query: Seq<char>,
    category: Option<Seq<char>>,
    i: int,
    j: int,
)
    requires
        0 <= i < j < listing(apps, query, category).len(),
    ensures
        stands_before(
            apps,
            query,
            category,
            listing(apps, query, category)[i].app,
            listing(apps, query, category)[j].app,
        ),
{
    let listed = listing(apps, query, category);
    lemma_listing(apps, query, category);
    assert(is_first_wanted(apps, query, category, listed[i]));
    assert(is_first_wanted(apps, query, category, listed[j]));
    let p = choose|p: int|
        0 <= p < apps.len() && is_first_wanted_at(apps, query, category, listed[i], p);
    let q = choose|q: int|
        0 <= q < apps.len() && is_first_wanted_at(apps, query, category, listed[j], q);
    lemma_listing_order(apps, query, category, i, j, p, q);
    assert(apps[p].app == listed[i].app && apps[q].app == listed[j].app);
}

/// In a group the apps keep the order of the storefront.
pub proof fn law_apps_keep_their_order(
    storefront: Storefront,
    query: Seq<char>,
    category: Option<Seq<char>>,
    g: int,
    a: int,
    b: int,
)
    requires
        0 <= g < shown_groups(storefront, query, category).len(),
        0 <= a < b < shown_groups(storefront, query, category)[g].1.len(),
    ensures
        stands_before(
            all_apps(storefront.sections@),
            query,
            category,
            shown_groups(storefront, query, category)[g].1[a],
            shown_groups(storefront, query, category)[g].1[b],
        ),
{
    let apps = all_apps(storefront.sections@);
    let listed = listing(apps, query, category);
    let title = titles(listed)[g];
    assert(shown_groups(storefront, query, category)[g] == (title, apps_under(listed, title)));
    let (i, j) = lemma_under_order(listed, title, a, b);
    lemma_stands_before(apps, query, category, i, j);
}

/// The groups are in the order of their first apps in the storefront.
pub proof fn law_groups_keep_their_order(
    storefront: Storefront,
    query: Seq<char>,
    category: Option<Seq<char>>,
    g: int,
    h: int,
)
    requires
        0 <= g < h < shown_groups(storefront, query, category).len(),
    ensures
        stands_before(
            all_apps(storefront.sections@),
            query,
            category,
            shown_groups(storefront, query, category)[g].1[0],
            shown_groups(storefront, query, category)[h].1[0],
        ),
{
    let apps = all_apps(storefront.sections@);
    let listed = listing(apps, query, category);
    let groups = shown_groups(storefront, query, category);
    assert(groups[g] == (titles(listed)[g], apps_under(listed, titles(listed)[g])));
    assert(groups[h] == (titles(listed)[h], apps_under(listed, titles(listed)[h])));
    let (i, j) = lemma_titles_order(listed, g, h);
    lemma_stands_before(apps, query, category, i, j);
}

/// What is looked up by its bundle identifier is the first app that is of the chosen category,
/// found, and so called; nothing comes only where there is none.
pub proof fn law_lookup_gives_the_first(
    apps: Seq<Titled>,
    query: Seq<char>,
    category: Option<Seq<char>>,
    bundle_id: Seq<char>,
    k: int,
)
    requires
        0 <= k < apps.len(),
        apps[k].app.bundle_id@ == bundle_id,
        finds(query, apps[k].app),
        category matches Some(name) ==> apps[k].app.category@ == name,
        forall|j: int|
            0 <= j < k && (#[trigger] apps[j]).app.bundle_id@ == bundle_id ==> !finds(
                query,
                apps[j].app,
            ) || (category is Some && apps[j].app.category@ != category->0),
    ensures
        first_wanted(apps, query, category, bundle_id) == Some(apps[k].app),
{
    let listed = Titled {
        title: group_title(apps[k].title, apps[k].app),
        app: apps[k].app,
    };
    assert(is_first_wanted_at(apps, query, category, listed, k));
    lemma_first_wanted(apps, query, category, listed);
}

/// What is looked up is one of the apps, so called, of the chosen category and found.
pub proof fn law_lookup_gives_a_match(
    apps: Seq<Titled>,
    query: Seq<char>,
    category: Option<Seq<char>>,
    bundle_id: Seq<char>,
)
    ensures
        first_wanted(apps, query, category, bundle_id) matches Some(app) ==> app.bundle_id@
            == bundle_id && finds(query, app) && (category matches Some(name) ==> app.category@
            == name) && exists|k: int| 0 <= k < apps.len() && (#[trigger] apps[k]).app == app,
    decreases apps.len(),
{
    if apps.len() > 0 {
        let front = apps.drop_last();
        law_lookup_gives_a_match(front, query, category, bundle_id);
        if let Some(app) = first_wanted(front, query, category, bundle_id) {
            let k = choose|k: int| 0 <= k < front.len() && (#[trigger] front[k]).app == app;
            assert(apps[k].app == app);
        } else {
            assert(apps[apps.len() - 1] == apps.last());
        }
    }
}

/// Groups are told as they are: every title with its characters, every app itself, in order.
pub proof fn law_groups_are_told_as_they_are(
    groups: Seq<(String, Vec<&CatalogApp>)>,
    g: int,
    a: int,
)
    requires
        0 <= g,
        0 <= a,
    ensures
        groups_view(groups).len() == groups.len(),
        g < groups.len() ==> {
            &&& groups_view(groups)[g].0 == groups[g].0@
            &&& groups_view(groups)[g].1.len() == groups[g].1@.len()
            &&& a < groups[g].1@.len() ==> groups_view(groups)[g].1[a] == *groups[g].1@[a]
        },
{
}

} // verus!
