use appstore::catalog::{CatalogApp, Storefront, StorefrontCategory, StorefrontSection};
use appstore::icons::LoadedIcon;
use appstore::screen::{
    catalog_content, category_selection, detail, error_content, library_content, navigation,
    section_view, AppTile, Choice, Detail, Picture, SidebarSection, Symbol, SELECTION_ALL,
};

fn app(bundle_id: &str, category: &str) -> CatalogApp {
    CatalogApp {
        bundle_id: String::from(bundle_id),
        name: format!("App {bundle_id}"),
        version: String::from("1.0"),
        developer: String::new(),
        description: String::new(),
        subtitle: None,
        category: String::from(category),
        icon: None,
    }
}

fn shop() -> Storefront {
    Storefront {
        sections: vec![StorefrontSection {
            title: String::from("Apps"),
            subtitle: None,
            apps: vec![app("a", "Tools"), app("b", "Games"), app("c", "Tools")],
        }],
        categories: vec![
            StorefrontCategory { name: String::from("Tools") },
            StorefrontCategory { name: String::from("Games") },
        ],
    }
}

fn icon(bundle_id: &str, image: u8) -> LoadedIcon<u8> {
    LoadedIcon { bundle_id: String::from(bundle_id), image }
}

fn rows(section: &SidebarSection) -> Vec<(&str, Symbol, &str, bool)> {
    section
        .items
        .iter()
        .map(|item| (item.label.as_str(), item.symbol, item.target.as_str(), item.selected))
        .collect()
}

#[test]
fn sidebar_lists_categories_and_library() {
    let storefront = shop();
    let sidebar = navigation(Some(&storefront), "category:Games");
    assert_eq!(sidebar.browse.title, "Explore");
    assert_eq!(
        rows(&sidebar.browse),
        [
            ("All Apps", Symbol::Grid, "all", false),
            ("Tools", Symbol::Tag, "category:Tools", false),
            ("Games", Symbol::Tag, "category:Games", true),
        ]
    );
    assert_eq!(sidebar.library.title, "Library");
    assert_eq!(
        rows(&sidebar.library),
        [
            ("Updates", Symbol::ArrowDownCircle, "library:updates", false),
            ("Installed", Symbol::InternalDrive, "library:installed", false),
        ]
    );
}

#[test]
fn sidebar_without_storefront_has_no_categories() {
    let sidebar = navigation(None, SELECTION_ALL);
    assert_eq!(rows(&sidebar.browse), [("All Apps", Symbol::Grid, "all", true)]);
    assert!(navigation(None, "library:installed").library.items[1].selected);
}

#[test]
fn chosen_entry_is_marked() {
    let storefront = shop();
    for target in ["all", "category:Tools", "category:Games", "library:updates", "library:installed"]
    {
        let sidebar = navigation(Some(&storefront), target);
        for item in sidebar.browse.items.iter().chain(&sidebar.library.items) {
            assert_eq!(item.selected, item.target == target);
        }
    }
}

#[test]
fn category_entry_shows_its_category() {
    let storefront = shop();
    let loaded: Vec<LoadedIcon<u8>> = Vec::new();
    assert_eq!(category_selection("Tools"), "category:Tools");
    let content = catalog_content(&storefront, "", &category_selection("Tools"), &loaded);
    assert_eq!(content.sections.len(), 1);
    assert_eq!(content.sections[0].title, "Tools");
    assert_eq!(content.sections[0].tiles.len(), 2);
    assert!(content.notice.is_none());
}

#[test]
fn tiles_have_their_icons() {
    let storefront = shop();
    let loaded = vec![icon("c", 3), icon("a", 1), icon("c", 4)];
    let content = catalog_content(&storefront, "", SELECTION_ALL, &loaded);
    let tiles: Vec<(&str, Option<u8>)> = content
        .sections
        .iter()
        .flat_map(|section| &section.tiles)
        .map(|tile| (tile.app.bundle_id.as_str(), tile.icon.copied()))
        .collect();
    assert_eq!(tiles, [("a", Some(1)), ("c", Some(3)), ("b", None)]);
    let tools = app("a", "");
    let section = section_view(String::from("T"), &vec![&tools], &loaded);
    assert_eq!((section.title.as_str(), section.tiles.len()), ("T", 1));
}

#[test]
fn empty_screen_says_why() {
    let storefront = shop();
    let loaded: Vec<LoadedIcon<u8>> = Vec::new();
    let notice = |query: &str, selection: &str| {
        catalog_content(&storefront, query, selection, &loaded).notice
    };
    assert_eq!(notice(" ", "category:None"), Some("No apps are currently available"));
    assert_eq!(notice("zzz", SELECTION_ALL), Some("No matching apps"));
    assert_eq!(notice("app", SELECTION_ALL), None);
}

#[test]
fn tile_names_its_app() {
    let notes = app("notes", "");
    let loaded: Vec<LoadedIcon<u8>> = Vec::new();
    let words = AppTile::new(&notes, &loaded).paint();
    assert_eq!(words.icon_label, "App notes icon");
    assert_eq!(words.name, "App notes");
    assert_eq!(words.button, "Get");
    assert_eq!(words.button_label, "Get App notes");
    assert!(!words.button_enabled);
}

#[test]
fn library_has_two_parts() {
    let updates = library_content("library:updates");
    assert_eq!(updates.title, "Updates");
    assert_eq!(
        updates.body,
        "Application updates will appear here when package installation is available."
    );
    for selection in ["library:installed", "library:other"] {
        let installed = library_content(selection);
        assert_eq!(installed.title, "Installed");
        assert_eq!(
            installed.body,
            "Installed applications will appear here when package installation is available."
        );
    }
}

#[test]
fn detail_follows_catalog_and_selection() {
    let storefront = shop();
    let loaded = vec![icon("a", 1)];
    assert!(matches!(
        detail(Ok(&storefront), "", &Choice::of("library:updates"), &loaded),
        Detail::Library(message) if message.title == "Updates"
    ));
    assert!(matches!(
        detail(Ok(&storefront), "app b", &Choice::of("all"), &loaded),
        Detail::Catalog(content) if content.sections.len() == 1
    ));
    assert_eq!(error_content().title, "App Store is unavailable");
    match detail(Err("no network"), "", &Choice::of("library:updates"), &loaded) {
        Detail::Error { message, reason } => {
            assert_eq!(message.title, "App Store is unavailable");
            assert_eq!(
                message.body,
                "The catalog could not be loaded. Check the network connection and reopen App Store."
            );
            assert_eq!(reason, "no network");
        }
        _ => panic!("the store is unavailable"),
    }
}

#[test]
fn tile_shows_its_own_icon_or_the_standard_one() {
    let (a, b) = (app("a", ""), app("b", ""));
    let loaded = vec![icon("a", 7)];
    assert!(matches!(AppTile::new(&a, &loaded).picture(), Picture::Own(7)));
    assert!(matches!(AppTile::new(&b, &loaded).picture(), Picture::Standard));
}

#[test]
fn selected_tile_opens_its_app() {
    let mut storefront = shop();
    let mut second = app("a", "Games");
    second.name = String::from("Second a");
    storefront.sections[0].apps.push(second);
    let loaded = vec![icon("a", 1)];
    for (query, selection) in [("", "all"), ("", "category:Games"), ("app", "category:Tools")] {
        let choice = Choice::of(selection);
        let content = match detail(Ok(&storefront), query, &choice, &loaded) {
            Detail::Catalog(content) => content,
            _ => panic!("apps"),
        };
        for tile in content.sections.iter().flat_map(|section| &section.tiles) {
            let opened = tile.select(&choice);
            assert_eq!(opened.selection, selection);
            match detail(Ok(&storefront), query, &opened, &loaded) {
                Detail::App(shown) => {
                    assert_eq!(shown.app.name, tile.app.name);
                    assert_eq!(shown.icon, tile.icon);
                }
                _ => panic!("the app is opened"),
            }
            let left = opened.close();
            assert!(left.opened.is_none());
            assert!(matches!(
                detail(Ok(&storefront), query, &left, &loaded),
                Detail::Catalog(_)
            ));
        }
    }
}

#[test]
fn opened_app_stays_while_something_else_is_searched_for() {
    let storefront = shop();
    let loaded: Vec<LoadedIcon<u8>> = Vec::new();
    let choice = |bundle_id: &str| Choice {
        selection: String::from("category:Tools"),
        opened: Some(String::from(bundle_id)),
    };
    assert!(matches!(
        detail(Ok(&storefront), "zzz", &choice("b"), &loaded),
        Detail::App(tile) if tile.app.bundle_id == "b"
    ));
    assert!(matches!(
        detail(Ok(&storefront), "", &choice("none"), &loaded),
        Detail::Catalog(_)
    ));
    let library = Choice { selection: String::from("library:updates"), ..choice("a") };
    assert!(matches!(detail(Ok(&storefront), "", &library, &loaded), Detail::Library(_)));
    assert_eq!(choice("a").clone().opened.as_deref(), Some("a"));
}
