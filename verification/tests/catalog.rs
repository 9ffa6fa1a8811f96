use appstore::catalog::{CatalogApp, Storefront, StorefrontCategory, StorefrontSection};
use appstore::listing::{app_matches_search, grouped_apps};
use serde_json::Value;

fn text_at(value: &Value, key: &str) -> String {
    String::from(value.get(key).and_then(Value::as_str).unwrap_or(""))
}

fn optional_text_at(value: &Value, key: &str) -> Option<String> {
    value.get(key).and_then(Value::as_str).map(String::from)
}

fn list_at<'a>(value: &'a Value, key: &str) -> &'a [Value] {
    value.get(key).and_then(Value::as_array).map_or(&[], |list| list.as_slice())
}

fn app_from(value: &Value) -> CatalogApp {
    CatalogApp {
        bundle_id: text_at(value, "bundle_id"),
        name: text_at(value, "name"),
        version: text_at(value, "version"),
        developer: text_at(value, "developer"),
        description: text_at(value, "description"),
        subtitle: optional_text_at(value, "subtitle"),
        category: text_at(value, "category"),
        icon: optional_text_at(value, "icon"),
    }
}

fn storefront_from(json: &str) -> Storefront {
    let value: Value = serde_json::from_str(json).expect("storefront fixture");
    Storefront {
        sections: list_at(&value, "sections")
            .iter()
            .map(|section| StorefrontSection {
                title: text_at(section, "title"),
                subtitle: optional_text_at(section, "subtitle"),
                apps: list_at(section, "apps").iter().map(app_from).collect(),
            })
            .collect(),
        categories: list_at(&value, "categories")
            .iter()
            .map(|category| StorefrontCategory { name: text_at(category, "name") })
            .collect(),
    }
}

fn app(bundle_id: &str, name: &str, category: &str) -> CatalogApp {
    CatalogApp {
        bundle_id: String::from(bundle_id),
        name: String::from(name),
        version: String::from("1.0"),
        developer: String::from("someone"),
        description: String::new(),
        subtitle: None,
        category: String::from(category),
        icon: None,
    }
}

fn section(title: &str, apps: Vec<CatalogApp>) -> StorefrontSection {
    StorefrontSection { title: String::from(title), subtitle: None, apps }
}

fn names(groups: &[(String, Vec<&CatalogApp>)]) -> Vec<(String, Vec<String>)> {
    groups
        .iter()
        .map(|(title, apps)| (title.clone(), apps.iter().map(|app| app.name.clone()).collect()))
        .collect()
}

fn expected(groups: &[(&str, &[&str])]) -> Vec<(String, Vec<String>)> {
    groups
        .iter()
        .map(|(title, names)| {
            (String::from(*title), names.iter().map(|name| String::from(*name)).collect())
        })
        .collect()
}

fn shop() -> Storefront {
    Storefront {
        sections: vec![
            section(
                "New",
                vec![app("a", "Alpha", "Tools"), app("b", "Beta", " "), app("c", "Gamma", "Games")],
            ),
            section(
                "Old",
                vec![app("d", "Delta", "Tools"), app("a", "Alpha II", "Games"), app("e", "Eta", "")],
            ),
            section("New", vec![app("f", "Theta", "")]),
        ],
        categories: Vec::new(),
    }
}

#[test]
fn catalog_search_matches_visible_app_details() {
    let app = CatalogApp {
        bundle_id: String::from("org.mochios.notes"),
        name: String::from("Notes"),
        version: String::from("1.0"),
        developer: String::from("mochiOS"),
        description: String::from("Write ideas"),
        subtitle: Some(String::from("Quick capture")),
        category: String::from("Productivity"),
        icon: None,
    };
    assert!(app_matches_search(&app, "notes"));
    assert!(app_matches_search(&app, "QUICK"));
    assert!(app_matches_search(&app, "write"));
    assert!(!app_matches_search(&app, "calendar"));
}

#[test]
fn catalog_uses_api_category_and_deduplicates_apps() {
    let storefront: Storefront = storefront_from(
        r#"{
            "categories": [{"name":"Development","slug":"development"}],
            "sections": [
                {"title":"Apps","apps":[{
                    "bundle_id":"com.example.testapp",
                    "name":"TestApp",
                    "version":"0.1.0",
                    "developer":"tas0dev",
                    "description":"Test Application for mochiOS",
                    "category":"Development",
                    "icon":"https://github.com/mochiOS.png"
                }]},
                {"title":"Featured","apps":[{
                    "bundle_id":"com.example.testapp",
                    "name":"TestApp",
                    "version":"0.1.0",
                    "developer":"tas0dev",
                    "description":"Test Application for mochiOS",
                    "category":"Development"
                }]}
            ]
        }"#,
    );

    let groups = grouped_apps(&storefront, "", None);
    assert_eq!(groups.len(), 1);
    assert_eq!(groups[0].0, "Development");
    assert_eq!(groups[0].1.len(), 1);
    assert_eq!(groups[0].1[0].name, "TestApp");
    assert_eq!(
        groups[0].1[0].icon.as_deref(),
        Some("https://github.com/mochiOS.png")
    );

    let development = grouped_apps(&storefront, "", Some("Development"));
    assert_eq!(development.len(), 1);
    assert_eq!(development[0].1.len(), 1);
    assert!(grouped_apps(&storefront, "", Some("Productivity")).is_empty());
}

#[test]
fn search_looks_at_bundle_identifier_and_developer_but_not_at_category() {
    let mut notes = app("org.mochios.notes", "Notes", "Productivity");
    assert!(app_matches_search(&notes, "MOCHIOS"));
    assert!(app_matches_search(&notes, "someone"));
    assert!(!app_matches_search(&notes, "productivity"));
    assert!(!app_matches_search(&notes, "1.0"));
    assert!(!app_matches_search(&notes, "quick"));
    notes.subtitle = Some(String::from("Quick capture"));
    assert!(app_matches_search(&notes, "quick"));
}

#[test]
fn search_ignores_margins_and_ascii_case() {
    let notes = app("x", "Große Notizen", "");
    assert!(app_matches_search(&notes, "  NOTIZ\t"));
    assert!(app_matches_search(&notes, "große n"));
    assert!(!app_matches_search(&notes, "GROSSE"));
    assert!(!app_matches_search(&notes, "große  n"));
}

#[test]
fn blank_search_finds_all() {
    assert!(app_matches_search(&app("x", "Notes", ""), ""));
    assert!(app_matches_search(&app("x", "Notes", ""), " \u{3000}\n"));
}

#[test]
fn groups_come_in_order_of_first_appearance() {
    let shop = shop();
    assert_eq!(
        names(&grouped_apps(&shop, "", None)),
        expected(&[
            ("Tools", &["Alpha", "Delta"]),
            ("New", &["Beta", "Theta"]),
            ("Games", &["Gamma"]),
            ("Old", &["Eta"]),
        ])
    );
}

#[test]
fn first_wanted_app_of_an_identifier_is_shown() {
    let shop = shop();
    assert_eq!(
        names(&grouped_apps(&shop, "alpha ii", None)),
        expected(&[("Games", &["Alpha II"])])
    );
    assert_eq!(
        names(&grouped_apps(&shop, "", Some("Games"))),
        expected(&[("Games", &["Gamma", "Alpha II"])])
    );
    assert_eq!(
        names(&grouped_apps(&shop, "alpha", None)),
        expected(&[("Tools", &["Alpha"])])
    );
}

#[test]
fn category_has_to_be_the_same_to_the_letter() {
    let shop = shop();
    assert!(grouped_apps(&shop, "", Some("games")).is_empty());
    assert_eq!(
        names(&grouped_apps(&shop, "", Some(""))),
        expected(&[("Old", &["Eta"]), ("New", &["Theta"])])
    );
}

#[test]
fn empty_storefront_has_no_groups() {
    let empty = Storefront { sections: Vec::new(), categories: Vec::new() };
    assert!(grouped_apps(&empty, "", None).is_empty());
    assert!(grouped_apps(&shop(), "nothing like it", None).is_empty());
}

#[test]
fn copy_of_an_app_has_all_its_details() {
    let mut original = app("a", "Alpha", "Tools");
    original.icon = Some(String::from("https://example.org/a.png"));
    original.subtitle = Some(String::from("First"));
    let copy = original.clone();
    assert_eq!(format!("{copy:?}"), format!("{original:?}"));
}
