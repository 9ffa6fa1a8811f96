//! What stands on the store's screen.
//!
//! These are the words, the order and the choices of the screen. How they are drawn is left to
//! the user interface.

use vstd::prelude::*;

use crate::catalog::{CatalogApp, Storefront};
use crate::icons;
use crate::icons::LoadedIcon;
use crate::listing;
use crate::text;

verus! {

/// The choice of all apps.
pub const SELECTION_ALL: &'static str = "all";

/// The choice of the apps with updates.
pub const SELECTION_UPDATES: &'static str = "library:updates";

/// The choice of the installed apps.
pub const SELECTION_INSTALLED: &'static str = "library:installed";

/// The choice of a category, by its name.
pub open spec fn category_choice(name: Seq<char>) -> Seq<char> {
    "category:"@ + name
}

/// The choice of a category, by its name.
pub fn category_selection(name: &str) -> (selection: String)
    ensures
        selection@ == category_choice(name@),
{
    text::joined("category:", name)
}

/// The category that is chosen, where the choice is one.
pub open spec fn chosen_category(selection: Seq<char>) -> Option<Seq<char>> {
    text::behind_prefix(selection, "category:"@)
}

/// Whether the choice is a part of the user's library.
pub open spec fn chooses_library(selection: Seq<char>) -> bool {
    "library:"@.is_prefix_of(selection)
}

/// What is chosen: an entry of the sidebar, and the app that was opened there, by its bundle
/// identifier.
#[derive(Debug)]
pub struct Choice {
    pub selection: String,
    pub opened: Option<String>,
}

/// What is chosen, as a value.
pub struct ChoiceState {
    pub selection: Seq<char>,
    pub opened: Option<Seq<char>>,
}

impl View for Choice {
    type V = ChoiceState;

    open spec fn view(&self) -> ChoiceState {
        ChoiceState {
            selection: self.selection@,
            opened: match self.opened {
                Some(bundle_id) => Some(bundle_id@),
                None => None,
            },
        }
    }
}

impl Clone for Choice {
    fn clone(&self) -> (copy: Self)
        ensures
            copy == *self,
    {
        Choice {
            selection: self.selection.clone(),
            opened: match &self.opened {
                Some(bundle_id) => Some(bundle_id.clone()),
                None => None,
            },
        }
    }
}

impl ChoiceState {
    /// The choice with an app opened.
    pub open spec fn with_opened(self, bundle_id: Seq<char>) -> ChoiceState {
        ChoiceState { selection: self.selection, opened: Some(bundle_id) }
    }

    /// The choice with no app opened.
    pub open spec fn closed(self) -> ChoiceState {
        ChoiceState { selection: self.selection, opened: None }
    }
}

impl Choice {
    /// The choice of an entry of the sidebar, by its target. No app is opened there yet.
    pub fn of(target: &str) -> (choice: Choice)
        ensures
            choice@ == (ChoiceState { selection: target@, opened: None }),
    {
        Choice { selection: target.to_owned(), opened: None }
    }

    /// The choice when the app that is opened is left.
    pub fn close(&self) -> (next: Choice)
        ensures
            next@ == self@.closed(),
    {
        Choice { selection: self.selection.clone(), opened: None }
    }
}

/// The pictograms of the sidebar.
#[derive(Clone, Copy, Debug, PartialEq, Eq, Structural)]
pub enum Symbol {
    Grid,
    Tag,
    ArrowDownCircle,
    InternalDrive,
}

/// An entry of the sidebar: choosing it makes `target` the choice.
#[derive(Debug)]
pub struct SidebarItem {
    pub label: String,
    pub symbol: Symbol,
    pub target: String,
    pub selected: bool,
}

/// Entries of the sidebar under a title.
#[derive(Debug)]
pub struct SidebarSection {
    pub title: String,
    pub items: Vec<SidebarItem>,
}

/// The sidebar.
#[derive(Debug)]
pub struct Navigation {
    pub browse: SidebarSection,
    pub library: SidebarSection,
}

/// An entry of the sidebar, as a value.
pub struct SidebarEntry {
    pub label: Seq<char>,
    pub symbol: Symbol,
    pub target: Seq<char>,
    pub selected: bool,
}

impl View for SidebarItem {
    type V = SidebarEntry;

    open spec fn view(&self) -> SidebarEntry {
        SidebarEntry {
            label: self.label@,
            symbol: self.symbol,
            target: self.target@,
            selected: self.selected,
        }
    }
}

/// An entry that is marked where its target is the choice.
pub open spec fn sidebar_entry(
    label: Seq<char>,
    symbol: Symbol,
    target: Seq<char>,
    selection: Seq<char>,
) -> SidebarEntry {
    SidebarEntry { label, symbol, target, selected: selection == target }
}

/// The entries for looking around: all apps, then the categories of the storefront in order.
pub open spec fn browse_entries(storefront: Option<Storefront>, selection: Seq<char>) -> Seq<
    SidebarEntry,
> {
    seq![sidebar_entry("All Apps"@, Symbol::Grid, SELECTION_ALL@, selection)] + (match storefront {
        Some(storefront) => Seq::new(
            storefront.categories@.len(),
            |i: int|
                sidebar_entry(
                    storefront.categories@[i].name@,
                    Symbol::Tag,
                    category_choice(storefront.categories@[i].name@),
                    selection,
                ),
        ),
        None => Seq::empty(),
    })
}

/// The entries for the user's library.
pub open spec fn library_entries(selection: Seq<char>) -> Seq<SidebarEntry> {
    seq![
        sidebar_entry("Updates"@, Symbol::ArrowDownCircle, SELECTION_UPDATES@, selection),
        sidebar_entry("Installed"@, Symbol::InternalDrive, SELECTION_INSTALLED@, selection),
    ]
}

/// The entries of a section, as values.
pub open spec fn entries(items: Seq<SidebarItem>) -> Seq<SidebarEntry> {
    items.map_values(|item: SidebarItem| item@)
}

/// Appends an entry, which is marked where its target is the choice.
fn push_item(
    items: &mut Vec<SidebarItem>,
    label: &str,
    symbol: Symbol,
    target: String,
    selection: &str,
)
    ensures
        entries(final(items)@) == entries(old(items)@).push(
            sidebar_entry(label@, symbol, target@, selection@),
        ),
{
    let ghost entry = sidebar_entry(label@, symbol, target@, selection@);
    let selected = text::same_text(selection, target.as_str());
    items.push(SidebarItem { label: label.to_owned(), symbol, target, selected });
    assert(entries(items@) =~= entries(old(items)@).push(entry));
}

/// The sidebar of the store.
pub fn navigation(storefront: Option<&Storefront>, selection: &str) -> (sidebar: Navigation)
    ensures
        sidebar.browse.title@ == "Explore"@,
        entries(sidebar.browse.items@) == browse_entries(
            match storefront {
                Some(storefront) => Some(*storefront),
                None => None,
            },
            selection@,
        ),
        sidebar.library.title@ == "Library"@,
        entries(sidebar.library.items@) == library_entries(selection@),
{
    let mut browse: Vec<SidebarItem> = Vec::new();
    assert(entries(browse@) =~= Seq::empty());
    push_item(&mut browse, "All Apps", Symbol::Grid, SELECTION_ALL.to_owned(), selection);
    if let Some(storefront) = storefront {
        let ghost all = browse_entries(Some(*storefront), selection@);
        assert(entries(browse@) =~= all.take(1));
        let mut i: usize = 0;
        while i < storefront.categories.len()
            invariant
                i <= storefront.categories@.len(),
                all == browse_entries(Some(*storefront), selection@),
                entries(browse@) == all.take(i + 1),
            decreases storefront.categories@.len() - i,
        {
            let name = storefront.categories[i].name.as_str();
            push_item(&mut browse, name, Symbol::Tag, category_selection(name), selection);
            assert(entries(browse@) =~= all.take(i + 2));
            i += 1;
        }
        assert(all.take(i + 1) =~= all);
    }
    let mut library: Vec<SidebarItem> = Vec::new();
    assert(entries(library@) =~= Seq::empty());
    push_item(
        &mut library,
        "Updates",
        Symbol::ArrowDownCircle,
        SELECTION_UPDATES.to_owned(),
        selection,
    );
    push_item(
        &mut library,
        "Installed",
        Symbol::InternalDrive,
        SELECTION_INSTALLED.to_owned(),
        selection,
    );
    assert(entries(browse@) =~= browse_entries(
        match storefront {
            Some(storefront) => Some(*storefront),
            None => None,
        },
        selection@,
    ));
    assert(entries(library@) =~= library_entries(selection@));
    Navigation {
        browse: SidebarSection { title: "Explore".to_owned(), items: browse },
        library: SidebarSection { title: "Library".to_owned(), items: library },
    }
}

/// An app on the screen, with its icon where that is there.
pub struct AppTile<'a, I> {
    pub app: &'a CatalogApp,
    pub icon: Option<&'a I>,
}

/// An app on the screen, as a value.
pub struct Tile<I> {
    pub app: CatalogApp,
    pub icon: Option<I>,
}

impl<'a, I> View for AppTile<'a, I> {
    type V = Tile<I>;

    open spec fn view(&self) -> Tile<I> {
        Tile {
            app: *self.app,
            icon: match self.icon {
                Some(image) => Some(*image),
                None => None,
            },
        }
    }
}

/// The picture on a tile.
pub enum Picture<'a, I> {
    /// The icon of the app itself.
    Own(&'a I),
    /// The icon for apps whose own is not there.
    Standard,
}

/// The words on and about a tile.
#[derive(Debug)]
pub struct TileText {
    /// What the picture is called for those who do not see it.
    pub icon_label: String,
    /// The line under the picture.
    pub name: String,
    /// The word on the button.
    pub button: String,
    /// What the button is called for those who do not see it.
    pub button_label: String,
    /// Whether the button can be used.
    pub button_enabled: bool,
}

impl<'a, I> AppTile<'a, I> {
    /// The tile of an app with its icon among `loaded`, where it is there.
    pub fn new(app: &'a CatalogApp, loaded: &'a Vec<LoadedIcon<I>>) -> (tile: AppTile<'a, I>)
        ensures
            tile@ == (Tile { app: *app, icon: icons::icon_of(loaded@, app.bundle_id@) }),
    {
        AppTile { app, icon: icons::loaded_icon(loaded, app.bundle_id.as_str()) }
    }

    /// The picture on the tile: the app's own icon where that is there.
    pub fn picture(&self) -> (picture: Picture<'a, I>)
        ensures
            picture == match self.icon {
                Some(image) => Picture::Own(image),
                None => Picture::Standard,
            },
    {
        match self.icon {
            Some(image) => Picture::Own(image),
            None => Picture::Standard,
        }
    }

    /// What selecting the tile makes the choice: its app is opened.
    pub fn select(&self, choice: &Choice) -> (next: Choice)
        ensures
            next@ == choice@.with_opened(self@.app.bundle_id@),
    {
        Choice {
            selection: choice.selection.clone(),
            opened: Some(self.app.bundle_id.clone()),
        }
    }

    /// The words on and about the tile. Its button cannot be used.
    pub fn paint(&self) -> (words: TileText)
        ensures
            words.icon_label@ == self@.app.name@ + " icon"@,
            words.name@ == self@.app.name@,
            words.button@ == "Get"@,
            words.button_label@ == "Get "@ + self@.app.name@,
            !words.button_enabled,
    {
        TileText {
            icon_label: text::joined(self.app.name.as_str(), " icon"),
            name: self.app.name.clone(),
            button: "Get".to_owned(),
            button_label: text::joined("Get ", self.app.name.as_str()),
            button_enabled: false,
        }
    }
}

/// A group of apps on the screen.
pub struct SectionView<'a, I> {
    pub title: String,
    pub tiles: Vec<AppTile<'a, I>>,
}

/// A group of apps on the screen, as a value.
pub struct Section<I> {
    pub title: Seq<char>,
    pub tiles: Seq<Tile<I>>,
}

impl<'a, I> View for SectionView<'a, I> {
    type V = Section<I>;

    open spec fn view(&self) -> Section<I> {
        Section {
            title: self.title@,
            tiles: self.tiles@.map_values(|tile: AppTile<'a, I>| tile@),
        }
    }
}

/// A group of apps with their icons.
pub open spec fn section_of<I>(
    group: (Seq<char>, Seq<CatalogApp>),
    loaded: Seq<LoadedIcon<I>>,
) -> Section<I> {
    Section {
        title: group.0,
        tiles: group.1.map_values(
            |app: CatalogApp| Tile { app, icon: icons::icon_of(loaded, app.bundle_id@) },
        ),
    }
}

/// A group of apps on the screen.
pub fn section_view<'a, I>(
    title: String,
    apps: &Vec<&'a CatalogApp>,
    loaded: &'a Vec<LoadedIcon<I>>,
) -> (section: SectionView<'a, I>)
    ensures
        section@ == section_of((title@, apps@.map_values(|app: &CatalogApp| *app)), loaded@),
{
    let ghost whole = section_of((title@, apps@.map_values(|app: &CatalogApp| *app)), loaded@);
    let mut tiles: Vec<AppTile<'a, I>> = Vec::new();
    let mut i: usize = 0;
    while i < apps.len()
        invariant
            i <= apps@.len(),
            whole == section_of((title@, apps@.map_values(|app: &CatalogApp| *app)), loaded@),
            tiles@.len() == i,
            forall|k: int| 0 <= k < i ==> (#[trigger] tiles@[k])@ == whole.tiles[k],
        decreases apps@.len() - i,
    {
        let app: &'a CatalogApp = apps[i];
        tiles.push(AppTile::new(app, loaded));
        i += 1;
    }
    let section = SectionView { title, tiles };
    assert(section@.tiles =~= whole.tiles);
    section
}

/// The apps on the screen, or the notice that there are none.
pub struct CatalogContent<'a, I> {
    pub sections: Vec<SectionView<'a, I>>,
    pub notice: Option<&'static str>,
}

/// The notice that stands in place of apps.
pub open spec fn empty_notice(query: Seq<char>) -> Seq<char> {
    if text::trimmed(query).len() == 0 {
        "No apps are currently available"@
    } else {
        "No matching apps"@
    }
}

/// The groups of apps that the choice and the query leave, with their icons.
pub open spec fn catalog_sections<I>(
    storefront: Storefront,
    query: Seq<char>,
    selection: Seq<char>,
    loaded: Seq<LoadedIcon<I>>,
) -> Seq<Section<I>> {
    listing::shown_groups(storefront, query, chosen_category(selection)).map_values(
        |group: (Seq<char>, Seq<CatalogApp>)| section_of(group, loaded),
    )
}

impl<'a, I> CatalogContent<'a, I> {
    /// Whether this is what the choice and the query leave of a storefront.
    pub open spec fn is_of(
        self,
        storefront: Storefront,
        query: Seq<char>,
        selection: Seq<char>,
        loaded: Seq<LoadedIcon<I>>,
    ) -> bool {
        let sections = catalog_sections(storefront, query, selection, loaded);
        &&& self.sections@.map_values(|section: SectionView<'a, I>| section@) == sections
        &&& match self.notice {
            Some(notice) => sections.len() == 0 && notice@ == empty_notice(query),
            None => sections.len() > 0,
        }
    }
}

/// The apps on the screen, or the notice that there are none.
pub fn catalog_content<'a, I>(
    storefront: &'a Storefront,
    query: &str,
    selection: &str,
    loaded: &'a Vec<LoadedIcon<I>>,
) -> (content: CatalogContent<'a, I>)
    ensures
        content.is_of(*storefront, query@, selection@, loaded@),
{
    let category = text::strip_prefix(selection, "category:");
    let groups = match &category {
        Some(name) => listing::grouped_apps(storefront, query, Some(name.as_str())),
        None => listing::grouped_apps(storefront, query, None),
    };
    let ghost shown = listing::shown_groups(*storefront, query@, chosen_category(selection@));
    assert(listing::groups_view(groups@) == shown);
    let ghost whole = catalog_sections(*storefront, query@, selection@, loaded@);
    let mut sections: Vec<SectionView<'a, I>> = Vec::new();
    let mut i: usize = 0;
    while i < groups.len()
        invariant
            i <= groups@.len(),
            listing::groups_view(groups@) == shown,
            whole == shown.map_values(
                |group: (Seq<char>, Seq<CatalogApp>)| section_of(group, loaded@),
            ),
            sections@.len() == i,
            forall|k: int| 0 <= k < i ==> (#[trigger] sections@[k])@ == whole[k],
        decreases groups@.len() - i,
    {
        proof {
            assert(listing::groups_view(groups@)[i as int] == listing::group_view(groups@[i as int]));
        }
        sections.push(section_view(groups[i].0.clone(), &groups[i].1, loaded));
        i += 1;
    }
    assert(listing::groups_view(groups@).len() == groups@.len());
    assert(sections@.map_values(|section: SectionView<'a, I>| section@) =~= whole);
    let notice = if !groups.is_empty() {
        None
    } else if text::is_blank(query) {
        Some("No apps are currently available")
    } else {
        Some("No matching apps")
    };
    CatalogContent { sections, notice }
}

/// A title and a message below it.
#[derive(Clone, Copy, Debug)]
pub struct Message {
    pub title: &'static str,
    pub body: &'static str,
}

/// The title of a part of the user's library.
pub open spec fn library_title(selection: Seq<char>) -> Seq<char> {
    if selection == SELECTION_UPDATES@ {
        "Updates"@
    } else {
        "Installed"@
    }
}

/// What a part of the user's library says.
pub open spec fn library_body(selection: Seq<char>) -> Seq<char> {
    if selection == SELECTION_UPDATES@ {
        "Application updates will appear here when package installation is available."@
    } else {
        "Installed applications will appear here when package installation is available."@
    }
}

/// What a part of the user's library says.
pub fn library_content(selection: &str) -> (message: Message)
    ensures
        message.title@ == library_title(selection@),
        message.body@ == library_body(selection@),
{
    if text::same_text(selection, SELECTION_UPDATES) {
        Message {
            title: "Updates",
            body: "Application updates will appear here when package installation is available.",
        }
    } else {
        Message {
            title: "Installed",
            body: "Installed applications will appear here when package installation is available.",
        }
    }
}

/// What the store says when it has no storefront.
pub fn error_content() -> (message: Message)
    ensures
        message.title@ == "App Store is unavailable"@,
        message.body@
            == "The catalog could not be loaded. Check the network connection and reopen App Store."@,
{
    Message {
        title: "App Store is unavailable",
        body: "The catalog could not be loaded. Check the network connection and reopen App Store.",
    }
}

/// The app that is opened: the one that the choice and the query leave under its bundle
/// identifier, else the first of the storefront that has it.
pub open spec fn opened_app(
    storefront: Storefront,
    query: Seq<char>,
    selection: Seq<char>,
    bundle_id: Seq<char>,
) -> Option<CatalogApp> {
    let apps = listing::all_apps(storefront.sections@);
    match listing::first_wanted(apps, query, chosen_category(selection), bundle_id) {
        Some(app) => Some(app),
        None => listing::first_wanted(apps, Seq::empty(), None, bundle_id),
    }
}

/// What stands beside the sidebar, as a value.
pub enum DetailState<I> {
    /// A part of the user's library.
    Library,
    /// The app that is opened.
    App(Tile<I>),
    /// The apps that the choice and the query leave.
    Catalog,
}

/// What stands beside the sidebar where there is a storefront: a part of the user's library, or
/// the app that is opened, or apps.
pub open spec fn detail_of<I>(
    storefront: Storefront,
    query: Seq<char>,
    choice: ChoiceState,
    loaded: Seq<LoadedIcon<I>>,
) -> DetailState<I> {
    if chooses_library(choice.selection) {
        DetailState::Library
    } else {
        match choice.opened {
            Some(bundle_id) => match opened_app(storefront, query, choice.selection, bundle_id) {
                Some(app) => DetailState::App(
                    Tile { app, icon: icons::icon_of(loaded, app.bundle_id@) },
                ),
                None => DetailState::Catalog,
            },
            None => DetailState::Catalog,
        }
    }
}

/// The app that is opened, where the storefront has it.
fn find_opened<'a>(storefront: &'a Storefront, query: &str, choice: &Choice) -> (found: Option<
    &'a CatalogApp,
>)
    ensures
        (match found {
            Some(app) => Some(*app),
            None => None,
        }) == match choice@.opened {
            Some(bundle_id) => opened_app(*storefront, query@, choice@.selection, bundle_id),
            None => None,
        },
{
    let bundle_id = match &choice.opened {
        Some(bundle_id) => bundle_id.as_str(),
        None => {
            return None;
        },
    };
    let category = text::strip_prefix(choice.selection.as_str(), "category:");
    let listed = match &category {
        Some(name) => listing::find_app(storefront, query, Some(name.as_str()), bundle_id),
        None => listing::find_app(storefront, query, None, bundle_id),
    };
    if listed.is_some() {
        return listed;
    }
    proof {
        reveal_strlit("");
        assert(""@ =~= Seq::<char>::empty());
    }
    listing::find_app(storefront, "", None, bundle_id)
}

/// What stands beside the sidebar.
pub enum Detail<'a, I> {
    /// A part of the user's library.
    Library(Message),
    /// The app that is opened.
    App(AppTile<'a, I>),
    /// Apps.
    Catalog(CatalogContent<'a, I>),
    /// The store is unavailable, for the reason given.
    Error { message: Message, reason: String },
}

/// What stands beside the sidebar: without a storefront the reason for that, else a part of the
/// user's library, the app that is opened, or apps, as chosen.
pub fn detail<'a, I>(
    catalog: Result<&'a Storefront, &str>,
    query: &str,
    choice: &Choice,
    loaded: &'a Vec<LoadedIcon<I>>,
) -> (content: Detail<'a, I>)
    ensures
        match catalog {
            Ok(storefront) => match detail_of(*storefront, query@, choice@, loaded@) {
                DetailState::Library => content matches Detail::Library(message) && message.title@
                    == library_title(choice@.selection) && message.body@ == library_body(
                    choice@.selection,
                ),
                DetailState::App(tile) => content matches Detail::App(opened) && opened@ == tile,
                DetailState::Catalog => content matches Detail::Catalog(apps) && apps.is_of(
                    *storefront,
                    query@,
                    choice@.selection,
                    loaded@,
                ),
            },
            Err(sentence) => content matches Detail::Error { message, reason }
                && message.title@ == "App Store is unavailable"@ && message.body@
                == "The catalog could not be loaded. Check the network connection and reopen App Store."@
                && reason@ == sentence@,
        },
{
    match catalog {
        Ok(storefront) => {
            let selection = choice.selection.as_str();
            if text::starts_with(selection, "library:") {
                return Detail::Library(library_content(selection));
            }
            match find_opened(storefront, query, choice) {
                Some(app) => Detail::App(AppTile::new(app, loaded)),
                None => Detail::Catalog(catalog_content(storefront, query, selection, loaded)),
            }
        },
        Err(sentence) => Detail::Error { message: error_content(), reason: sentence.to_owned() },
    }
}

/// Selecting a tile opens its app: where apps stand beside the sidebar, and the tile of one of
/// them is selected, that very app stands there, with its icon. Leaving it brings the apps back.
pub proof fn law_selected_tile_opens_its_app<I>(
    storefront: Storefront,
    query: Seq<char>,
    choice: ChoiceState,
    loaded: Seq<LoadedIcon<I>>,
    s: int,
    t: int,
)
    requires
        detail_of(storefront, query, choice, loaded) is Catalog,
        0 <= s < catalog_sections(storefront, query, choice.selection, loaded).len(),
        0 <= t < catalog_sections(storefront, query, choice.selection, loaded)[s].tiles.len(),
    ensures
        ({
            let tile = catalog_sections(storefront, query, choice.selection, loaded)[s].tiles[t];
            let opened = choice.with_opened(tile.app.bundle_id@);
            &&& detail_of(storefront, query, opened, loaded) == DetailState::App(tile)
            &&& detail_of(storefront, query, opened.closed(), loaded) is Catalog
        }),
{
    let category = chosen_category(choice.selection);
    let groups = listing::shown_groups(storefront, query, category);
    listing::law_only_first_wanted_apps_are_shown(storefront, query, category, s, t);
    listing::lemma_first_wanted(
        listing::all_apps(storefront.sections@),
        query,
        category,
        listing::Titled { title: groups[s].0, app: groups[s].1[t] },
    );
}

/// An app that is opened has the bundle identifier that was chosen, whatever is searched for
/// since, and every app of the storefront can be opened.
pub proof fn law_opened_app_is_the_chosen_one(
    storefront: Storefront,
    query: Seq<char>,
    selection: Seq<char>,
    bundle_id: Seq<char>,
)
    ensures
        opened_app(storefront, query, selection, bundle_id) matches Some(app) ==> app.bundle_id@
            == bundle_id,
        listing::lists(listing::all_apps(storefront.sections@), bundle_id) ==> opened_app(
            storefront,
            query,
            selection,
            bundle_id,
        ) is Some,
{
    let apps = listing::all_apps(storefront.sections@);
    listing::lemma_first_wanted_id(apps, query, chosen_category(selection), bundle_id);
    listing::lemma_first_wanted_id(apps, Seq::empty(), None, bundle_id);
    if listing::lists(apps, bundle_id) {
        let k = choose|k: int| 0 <= k < apps.len() && #[trigger] apps[k].app.bundle_id@ == bundle_id;
        listing::law_blank_search_finds_all(Seq::empty(), apps[k].app);
    }
}

/// The entry of a category leads to that category, and to nothing of the library.
pub proof fn law_category_entry_leads_to_category(name: Seq<char>)
    ensures
        chosen_category(category_choice(name)) == Some(name),
        !chooses_library(category_choice(name)),
{
    reveal_strlit("category:");
    reveal_strlit("library:");
    let choice = category_choice(name);
    assert("category:"@ =~= choice.take("category:"@.len() as int));
    assert(choice.skip("category:"@.len() as int) =~= name);
    assert(choice[0] == 'c');
    assert("library:"@[0] == 'l');
}

/// The entries for looking around lead to apps, never to the library: the first to all apps, each
/// other one to its category.
pub proof fn law_browse_entries_lead_to_apps(
    storefront: Option<Storefront>,
    selection: Seq<char>,
    i: int,
)
    requires
        0 <= i < browse_entries(storefront, selection).len(),
    ensures
        ({
            let entry = browse_entries(storefront, selection)[i];
            &&& !chooses_library(entry.target)
            &&& chosen_category(entry.target) == (if i == 0 {
                None
            } else {
                Some(entry.label)
            })
        }),
{
    reveal_strlit("category:");
    reveal_strlit("library:");
    reveal_strlit("all");
    if i > 0 {
        law_category_entry_leads_to_category(browse_entries(storefront, selection)[i].label);
    }
}

/// The entries of the library lead to the library and to no category.
pub proof fn law_library_entries_lead_to_library(selection: Seq<char>, i: int)
    requires
        0 <= i < library_entries(selection).len(),
    ensures
        chooses_library(library_entries(selection)[i].target),
        chosen_category(library_entries(selection)[i].target) is None,
        library_title(library_entries(selection)[i].target) == library_entries(selection)[i].label,
{
    reveal_strlit("category:");
    reveal_strlit("library:");
    reveal_strlit("library:updates");
    reveal_strlit("library:installed");
    assert("category:"@[0] == 'c');
    assert("library:"@ =~= SELECTION_UPDATES@.take(8));
    assert("library:"@ =~= SELECTION_INSTALLED@.take(8));
}

/// An entry that is chosen is the one that is marked: with its target as the choice, every entry
/// of the sidebar is marked exactly where it has that target.
pub proof fn law_chosen_entry_is_marked(
    storefront: Option<Storefront>,
    before: Seq<char>,
    chosen: int,
    i: int,
)
    requires
        0 <= chosen < (browse_entries(storefront, before) + library_entries(before)).len(),
        0 <= i < (browse_entries(storefront, before) + library_entries(before)).len(),
    ensures
        ({
            let old_entries = browse_entries(storefront, before) + library_entries(before);
            let selection = old_entries[chosen].target;
            let new_entries = browse_entries(storefront, selection) + library_entries(selection);
            &&& new_entries.len() == old_entries.len()
            &&& new_entries[i].target == old_entries[i].target
            &&& new_entries[i].label == old_entries[i].label
            &&& new_entries[i].selected == (old_entries[i].target == old_entries[chosen].target)
        }),
{
}

/// A choice is a category exactly when it is `category:` and the category's name, and a part of
/// the library exactly when it starts with `library:`.
pub proof fn law_choices_are_told_apart(selection: Seq<char>, name: Seq<char>)
    ensures
        category_choice(name) == "category:"@ + name,
        chosen_category(selection) == Some(name) <==> selection == "category:"@ + name,
        chooses_library(selection) <==> exists|rest: Seq<char>|
            selection == #[trigger] ("library:"@ + rest),
{
    text::law_prefix_and_rest(selection, "category:"@, name);
    if chooses_library(selection) {
        assert(selection =~= "library:"@ + selection.skip("library:"@.len() as int));
    }
    if exists|rest: Seq<char>| selection == #[trigger] ("library:"@ + rest) {
        let rest = choose|rest: Seq<char>| selection == #[trigger] ("library:"@ + rest);
        assert("library:"@ =~= selection.take("library:"@.len() as int));
    }
}

/// The sidebar offers all apps first, then every category of the storefront in order and under its
/// name, and nothing else to look around in.
pub proof fn law_every_category_is_offered(
    storefront: Option<Storefront>,
    selection: Seq<char>,
    i: int,
)
    requires
        0 <= i,
    ensures
        ({
            let offered = browse_entries(storefront, selection);
            &&& offered[0].label == "All Apps"@
            &&& offered[0].symbol is Grid
            &&& offered[0].target == "all"@
            &&& offered[0].selected == (selection == "all"@)
            &&& storefront is None ==> offered.len() == 1
            &&& storefront matches Some(storefront) ==> {
                let name = storefront.categories@[i].name@;
                &&& offered.len() == storefront.categories@.len() + 1
                &&& i < storefront.categories@.len() ==> offered[i + 1].label == name
                    && offered[i + 1].symbol is Tag && offered[i + 1].target == "category:"@ + name
                    && offered[i + 1].selected == (selection == "category:"@ + name)
            }
        }),
{
}

/// The library has two parts, updates and installed apps.
pub proof fn law_library_has_two_parts(selection: Seq<char>)
    ensures
        ({
            let offered = library_entries(selection);
            &&& offered.len() == 2
            &&& offered[0].label == "Updates"@
            &&& offered[0].symbol is ArrowDownCircle
            &&& offered[0].target == "library:updates"@
            &&& offered[0].selected == (selection == "library:updates"@)
            &&& offered[1].label == "Installed"@
            &&& offered[1].symbol is InternalDrive
            &&& offered[1].target == "library:installed"@
            &&& offered[1].selected == (selection == "library:installed"@)
        }),
{
}

/// Entries and tiles are told as they are.
pub proof fn law_values_are_told_as_they_are<'a, I>(
    items: Seq<SidebarItem>,
    i: int,
    tile: AppTile<'a, I>,
    section: SectionView<'a, I>,
    t: int,
    choice: Choice,
)
    ensures
        entries(items).len() == items.len(),
        0 <= i < items.len() ==> entries(items)[i].label == items[i].label@ && entries(
            items,
        )[i].symbol == items[i].symbol && entries(items)[i].target == items[i].target@ && entries(
            items,
        )[i].selected == items[i].selected,
        tile@.app == *tile.app,
        tile.icon is None <==> tile@.icon is None,
        tile.icon matches Some(image) ==> tile@.icon == Some(*image),
        section@.title == section.title@,
        section@.tiles.len() == section.tiles@.len(),
        0 <= t < section.tiles@.len() ==> section@.tiles[t] == section.tiles@[t]@,
        choice@.selection == choice.selection@,
        choice.opened is None <==> choice@.opened is None,
        choice.opened matches Some(bundle_id) ==> choice@.opened == Some(bundle_id@),
{
}

/// Every group that the category and the search leave is on the screen, in order and under its
/// title, with a tile for each of its apps, in order, and each with the app's own icon.
pub proof fn law_every_group_is_on_the_screen<I>(
    storefront: Storefront,
    query: Seq<char>,
    selection: Seq<char>,
    loaded: Seq<LoadedIcon<I>>,
    g: int,
    a: int,
)
    requires
        0 <= g < listing::shown_groups(storefront, query, chosen_category(selection)).len(),
        0 <= a < listing::shown_groups(
            storefront,
            query,
            chosen_category(selection),
        )[g].1.len(),
    ensures
        ({
            let groups = listing::shown_groups(storefront, query, chosen_category(selection));
            let sections = catalog_sections(storefront, query, selection, loaded);
            &&& sections.len() == groups.len()
            &&& sections[g].title == groups[g].0
            &&& sections[g].tiles.len() == groups[g].1.len()
            &&& sections[g].tiles[a].app == groups[g].1[a]
            &&& sections[g].tiles[a].icon == icons::icon_of(loaded, groups[g].1[a].bundle_id@)
        }),
{
}

/// The screen holds those groups, or a notice where there is none, which says whether something
/// was searched for: anything but white space.
pub proof fn law_empty_screen_says_why<'a, I>(
    content: CatalogContent<'a, I>,
    storefront: Storefront,
    query: Seq<char>,
    selection: Seq<char>,
    loaded: Seq<LoadedIcon<I>>,
)
    requires
        content.is_of(storefront, query, selection, loaded),
    ensures
        ({
            let sections = catalog_sections(storefront, query, selection, loaded);
            let blank = forall|k: int|
                0 <= k < query.len() ==> text::white_space(#[trigger] query[k]);
            &&& content.sections@.len() == sections.len()
            &&& forall|g: int|
                0 <= g < sections.len() ==> (#[trigger] content.sections@[g])@ == sections[g]
            &&& content.notice is None <==> listing::shown_groups(
                storefront,
                query,
                chosen_category(selection),
            ).len() > 0
            &&& content.notice matches Some(notice) ==> notice@ == (if blank {
                "No apps are currently available"@
            } else {
                "No matching apps"@
            })
        }),
{
    let sections = catalog_sections(storefront, query, selection, loaded);
    let told = content.sections@.map_values(|section: SectionView<'a, I>| section@);
    assert(told == sections);
    assert forall|g: int| 0 <= g < sections.len() implies (#[trigger] content.sections@[g])@
        == sections[g] by {
        assert(told[g] == content.sections@[g]@);
    }
    text::law_blank_text_is_white_space(query);
}

/// The part with updates speaks of updates, every other part of the library of installed apps.
pub proof fn law_library_says_what_it_will_hold(selection: Seq<char>)
    ensures
        selection == "library:updates"@ ==> library_title(selection) == "Updates"@ && library_body(
            selection,
        ) == "Application updates will appear here when package installation is available."@,
        selection != "library:updates"@ ==> library_title(selection) == "Installed"@
            && library_body(selection)
            == "Installed applications will appear here when package installation is available."@,
{
}

/// The library stands beside the sidebar exactly when it is chosen; else the app that is opened
/// does, where one is and the storefront has it; else the apps do.
pub proof fn law_choice_decides_what_is_beside<I>(
    storefront: Storefront,
    query: Seq<char>,
    choice: ChoiceState,
    loaded: Seq<LoadedIcon<I>>,
)
    ensures
        ({
            let shown = detail_of(storefront, query, choice, loaded);
            let apps = listing::all_apps(storefront.sections@);
            &&& shown is Library <==> "library:"@.is_prefix_of(choice.selection)
            &&& !(shown is Library) && choice.opened is None ==> shown is Catalog
            &&& !(shown is Library) && choice.opened is Some ==> (shown is App <==> exists|k: int|
                0 <= k < apps.len() && (#[trigger] apps[k]).app.bundle_id@ == choice.opened->0)
            &&& shown matches DetailState::App(tile) ==> tile.app.bundle_id@ == choice.opened->0
                && tile.icon == icons::icon_of(loaded, tile.app.bundle_id@) && exists|k: int|
                0 <= k < apps.len() && (#[trigger] apps[k]).app == tile.app
        }),
{
    if let Some(bundle_id) = choice.opened {
        let apps = listing::all_apps(storefront.sections@);
        let category = chosen_category(choice.selection);
        law_opened_app_is_the_chosen_one(storefront, query, choice.selection, bundle_id);
        listing::law_lookup_gives_a_match(apps, query, category, bundle_id);
        listing::law_lookup_gives_a_match(apps, Seq::empty(), None, bundle_id);
        if let Some(app) = opened_app(storefront, query, choice.selection, bundle_id) {
            let k = choose|k: int| 0 <= k < apps.len() && (#[trigger] apps[k]).app == app;
            assert(apps[k].app.bundle_id@ == bundle_id);
        }
        if exists|k: int| 0 <= k < apps.len() && (#[trigger] apps[k]).app.bundle_id@ == bundle_id {
            let k = choose|k: int|
                0 <= k < apps.len() && (#[trigger] apps[k]).app.bundle_id@ == bundle_id;
            assert(listing::lists(apps, bundle_id));
        }
    }
}

/// Opening an app leaves the rest of the choice as it is, and leaving it undoes that.
pub proof fn law_leaving_undoes_opening(choice: ChoiceState, bundle_id: Seq<char>)
    ensures
        choice.with_opened(bundle_id).selection == choice.selection,
        choice.with_opened(bundle_id).opened == Some(bundle_id),
        choice.closed().selection == choice.selection,
        choice.closed().opened is None,
        choice.with_opened(bundle_id).closed() == choice.closed(),
{
}

/// An app that the choice and the search leave none for is opened all the same, as the first of
/// the storefront with its bundle identifier.
pub proof fn law_hidden_app_is_opened(
    storefront: Storefront,
    query: Seq<char>,
    selection: Seq<char>,
    bundle_id: Seq<char>,
    k: int,
)
    requires
        0 <= k < listing::all_apps(storefront.sections@).len(),
        listing::all_apps(storefront.sections@)[k].app.bundle_id@ == bundle_id,
        forall|j: int|
            0 <= j < k ==> (#[trigger] listing::all_apps(storefront.sections@)[j]).app.bundle_id@
                != bundle_id,
        forall|j: int|
            0 <= j < listing::all_apps(storefront.sections@).len() && (
            #[trigger] listing::all_apps(storefront.sections@)[j]).app.bundle_id@ == bundle_id
                ==> !listing::finds(query, listing::all_apps(storefront.sections@)[j].app) || (
            chosen_category(selection) matches Some(name) && listing::all_apps(
                storefront.sections@,
            )[j].app.category@ != name),
    ensures
        opened_app(storefront, query, selection, bundle_id) == Some(
            listing::all_apps(storefront.sections@)[k].app,
        ),
{
    let apps = listing::all_apps(storefront.sections@);
    listing::law_lookup_gives_a_match(apps, query, chosen_category(selection), bundle_id);
    if let Some(app) = listing::first_wanted(apps, query, chosen_category(selection), bundle_id) {
        let j = choose|j: int| 0 <= j < apps.len() && (#[trigger] apps[j]).app == app;
        assert(apps[j].app.bundle_id@ == bundle_id);
    }
    listing::law_blank_search_finds_all(Seq::empty(), apps[k].app);
    listing::law_lookup_gives_the_first(apps, Seq::empty(), None, bundle_id, k);
}

} // verus!
