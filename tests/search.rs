use cdl::models::{Author, Category, ModLoader, SearchResult, SortType};
use cdl::url::search_url;
use cdl::search::filter_by_loader;

fn result(id: u32, fabric: bool) -> SearchResult {
    let mut categories = vec![Category { category_id: 423, name: String::from("Map"), url: String::new() }];
    if fabric {
        categories.push(Category { category_id: 4780, name: String::from("Fabric"), url: String::new() });
    }
    SearchResult {
        authors: vec![Author { name: String::from("a"), url: String::new(), id: 1 }],
        description: String::new(),
        categories,
        game_files: vec![],
        id,
        name: format!("sodium{}", id),
        website_url: String::new(),
    }
}

fn page() -> Vec<SearchResult> {
    vec![result(1, true), result(2, false), result(3, true), result(4, false), result(5, true)]
}

fn ids(rs: &[SearchResult]) -> Vec<u32> {
    rs.iter().map(|r| r.id).collect()
}

#[test]
fn fabric_search_keeps_only_fabric_in_order() {
    let kept = filter_by_loader(page(), &ModLoader::Fabric);
    assert_eq!(ids(&kept), vec![1, 3, 5]);
    assert!(kept.iter().all(|r| r.is_fabric()));
}

#[test]
fn forge_search_drops_fabric() {
    let kept = filter_by_loader(page(), &ModLoader::Forge);
    assert_eq!(ids(&kept), vec![2, 4]);
}

#[test]
fn both_keeps_everything() {
    let kept = filter_by_loader(page(), &ModLoader::Both);
    assert_eq!(ids(&kept), vec![1, 2, 3, 4, 5]);
}

#[test]
fn filtering_twice_changes_nothing() {
    for loader in [ModLoader::Forge, ModLoader::Fabric, ModLoader::Both] {
        let once = filter_by_loader(page(), &loader);
        let once_ids = ids(&once);
        let twice = filter_by_loader(once, &loader);
        assert_eq!(ids(&twice), once_ids);
    }
}

#[test]
fn no_results_is_empty_not_error() {
    assert!(filter_by_loader(vec![], &ModLoader::Fabric).is_empty());
    assert!(filter_by_loader(vec![result(2, false)], &ModLoader::Fabric).is_empty());
}

#[test]
fn sodium_fabric_search_scenario() {
    let url = search_url("sodium", "1.20.1", 5, &SortType::Popularity);
    assert!(url.ends_with("gameVersion=1.20.1&index=0&pageSize=5&searchFilter=sodium&sectionId=6&sort=Popularity"));
    let kept = filter_by_loader(page(), &ModLoader::Fabric);
    assert_eq!(ids(&kept), vec![1, 3, 5]);
    assert!(kept.iter().all(|r| r.categories.iter().any(|c| c.category_id == 4780)));
}
