use cdl::models::{
    Author, Category, Dependency, GameFile, ModInfo, ModLoader, SearchResult, SortType,
};

fn category(id: u32) -> Category {
    Category { category_id: id, name: String::from("c"), url: String::new() }
}

fn author(name: &str) -> Author {
    Author { name: String::from(name), url: String::new(), id: 1 }
}

fn game_file(version: &str, file_id: u32) -> GameFile {
    GameFile {
        game_version: String::from(version),
        project_file_id: file_id,
        project_file_name: format!("f{}.jar", file_id),
        file_type: 1,
    }
}

fn result(id: u32, categories: Vec<Category>, authors: Vec<Author>) -> SearchResult {
    SearchResult {
        authors,
        description: String::new(),
        categories,
        game_files: vec![game_file("1.16.4", 10), game_file("1.20.1", 20), game_file("1.20.1", 21)],
        id,
        name: format!("mod{}", id),
        website_url: String::new(),
    }
}

#[test]
fn fabric_tag_detected() {
    let r = result(1, vec![category(1), category(4780)], vec![author("a")]);
    assert!(r.is_fabric());
    let r = result(2, vec![category(1), category(4781)], vec![author("a")]);
    assert!(!r.is_fabric());
    let r = result(3, vec![], vec![author("a")]);
    assert!(!r.is_fabric());
    assert_eq!(Category::fabric_id(), 4780);
}

#[test]
fn file_by_version_takes_first_match() {
    let r = result(1, vec![], vec![author("a")]);
    assert_eq!(r.get_file_by_version("1.20.1").map(|f| f.project_file_id), Some(20));
    assert_eq!(r.get_file_by_version("1.16.4").map(|f| f.project_file_id), Some(10));
    assert!(r.get_file_by_version("1.12").is_none());
    assert!(r.get_file_by_version("1.20").is_none());
}

#[test]
fn author_names_shows_three() {
    let r = result(1, vec![], vec![author("ann")]);
    assert_eq!(r.author_names(), "ann ");
    let r = result(1, vec![], vec![author("ann"), author("bob"), author("cy")]);
    assert_eq!(r.author_names(), "ann, bob, cy ");
    let r = result(1, vec![], vec![author("ann"), author("bob"), author("cy"), author("dee")]);
    assert_eq!(r.author_names(), "ann, bob, cy et al.");
}

#[test]
fn hard_dependencies_filtered_in_order() {
    let info = ModInfo {
        id: 1,
        display_name: String::new(),
        file_name: String::new(),
        download_url: String::new(),
        dependencies: vec![
            Dependency { addon_id: 5, dep_type: 3 },
            Dependency { addon_id: 6, dep_type: 2 },
            Dependency { addon_id: 7, dep_type: 3 },
            Dependency { addon_id: 8, dep_type: 1 },
        ],
    };
    let ids: Vec<u32> = info.hard_dependencies().iter().map(|d| d.addon_id).collect();
    assert_eq!(ids, vec![5, 7]);
    assert_eq!(Dependency::hard_id(), 3);
}

#[test]
fn duplicate_copies_every_field() {
    let info = ModInfo {
        id: 4,
        display_name: String::from("Four"),
        file_name: String::from("four.jar"),
        download_url: String::from("https://x/four.jar"),
        dependencies: vec![Dependency { addon_id: 5, dep_type: 3 }],
    };
    let copy = info.duplicate();
    assert_eq!(copy.id, 4);
    assert_eq!(copy.display_name, "Four");
    assert_eq!(copy.file_name, "four.jar");
    assert_eq!(copy.download_url, "https://x/four.jar");
    assert_eq!(copy.dependencies, vec![Dependency { addon_id: 5, dep_type: 3 }]);
}

#[test]
fn loader_names() {
    assert_eq!(ModLoader::parse("forge"), Ok(ModLoader::Forge));
    assert_eq!(ModLoader::parse("FaBrIc"), Ok(ModLoader::Fabric));
    assert_eq!(ModLoader::parse("Both"), Ok(ModLoader::Both));
    assert_eq!("fabric".parse::<ModLoader>(), Ok(ModLoader::Fabric));
    assert_eq!(ModLoader::parse("Quilt"), Err(String::from("'quilt' not a valid mod loader")));
    assert_eq!(ModLoader::from_lowercase("FORGE"), Err(String::from("'FORGE' not a valid mod loader")));
    assert_eq!(ModLoader::Forge.to_string(), "Forge");
    assert_eq!(ModLoader::Fabric.to_string(), "Fabric");
    assert_eq!(ModLoader::Both.to_string(), "Forge/Fabric");
}

#[test]
fn sort_names() {
    assert_eq!(SortType::parse("downloads"), Ok(SortType::TotalDownloads));
    assert_eq!(SortType::parse("POPULARITY"), Ok(SortType::Popularity));
    assert_eq!(SortType::parse("name"), Ok(SortType::Name));
    assert_eq!(SortType::parse("Updated"), Ok(SortType::LastUpdated));
    assert_eq!("created".parse::<SortType>(), Ok(SortType::DateCreated));
    assert_eq!(SortType::parse("Newest"), Err(String::from("'newest' not a valid sort type")));
    assert_eq!(SortType::TotalDownloads.to_string(), "TotalDownloads");
    assert_eq!(SortType::Popularity.to_string(), "Popularity");
    assert_eq!(SortType::Name.to_string(), "Name");
    assert_eq!(SortType::LastUpdated.to_string(), "LastUpdated");
    assert_eq!(SortType::DateCreated.to_string(), "DateCreated");
}
