use cdl::cli::{Cdl, Config};
use cdl::models::{ModLoader, SortType};
use cdl::url::{info_url, mod_url, parse_query, search_url};

#[test]
fn search_url_exact() {
    assert_eq!(
        search_url("sodium", "1.20.1", 5, &SortType::Popularity),
        "https://addons-ecs.forgesvc.net/api/v2/addon/search?categoryId=0&gameId=432&gameVersion=1.20.1&index=0&pageSize=5&searchFilter=sodium&sectionId=6&sort=Popularity"
    );
    assert_eq!(
        search_url("a%20b", "1.16.4", 255, &SortType::DateCreated),
        "https://addons-ecs.forgesvc.net/api/v2/addon/search?categoryId=0&gameId=432&gameVersion=1.16.4&index=0&pageSize=255&searchFilter=a%20b&sectionId=6&sort=DateCreated"
    );
}

#[test]
fn mod_and_info_urls_exact() {
    assert_eq!(mod_url(42), "https://addons-ecs.forgesvc.net/api/v2/addon/42");
    assert_eq!(mod_url(0), "https://addons-ecs.forgesvc.net/api/v2/addon/0");
    assert_eq!(
        info_url(238222, 4294967295),
        "https://addons-ecs.forgesvc.net/api/v2/addon/238222/file/4294967295"
    );
}

#[test]
fn query_spaces_escaped() {
    assert_eq!(parse_query("just enough items"), "just%20enough%20items");
    assert_eq!(parse_query(" x "), "%20x%20");
    assert_eq!(parse_query(""), "");
}

#[test]
fn config_defaults() {
    let c = Config::default();
    assert_eq!(c.game_version, "1.16.4");
    assert_eq!(c.mod_loader, ModLoader::Forge);
    assert_eq!(c.sort_type, SortType::Popularity);
    assert_eq!(c.amount, 9);
}

#[test]
fn command_line_overrides_config() {
    let config = Config::default();
    let cdl = Cdl {
        mod_loader: Some(ModLoader::Fabric),
        game_version: Some(String::from("1.20.1")),
        sort: None,
        amount: Some(5),
        github: false,
        query: String::from("sodium"),
    };
    assert_eq!(cdl.loader(&config), ModLoader::Fabric);
    assert_eq!(cdl.version(&config), "1.20.1");
    assert_eq!(cdl.page_size(&config), 5);
    assert_eq!(cdl.sort_type(&config), SortType::Popularity);
    assert_eq!(
        cdl.search_url(&config),
        "https://addons-ecs.forgesvc.net/api/v2/addon/search?categoryId=0&gameId=432&gameVersion=1.20.1&index=0&pageSize=5&searchFilter=sodium&sectionId=6&sort=Popularity"
    );
    let bare = Cdl {
        mod_loader: None,
        game_version: None,
        sort: None,
        amount: None,
        github: false,
        query: String::from("jei"),
    };
    assert_eq!(bare.loader(&config), ModLoader::Forge);
    assert_eq!(bare.version(&config), "1.16.4");
    assert_eq!(bare.page_size(&config), 9);
}
