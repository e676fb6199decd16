use cdl::models::{Author, Dependency, GameFile, ModInfo, SearchResult};
use cdl::resolver::Resolver;
use cdl::url::info_url;

/// A stand-in for the remote service: each mod has one file for each listed version.
struct Remote {
    mods: Vec<(u32, Vec<&'static str>, Vec<Dependency>)>,
}

impl Remote {
    fn summary(&self, id: u32) -> SearchResult {
        let (_, versions, _) = self.mods.iter().find(|m| m.0 == id).expect("unknown mod");
        SearchResult {
            authors: vec![Author { name: String::from("a"), url: String::new(), id: 1 }],
            description: String::new(),
            categories: vec![],
            game_files: versions
                .iter()
                .map(|v| GameFile {
                    game_version: String::from(*v),
                    project_file_id: id * 100,
                    project_file_name: String::new(),
                    file_type: 1,
                })
                .collect(),
            id,
            name: format!("mod{}", id),
            website_url: String::new(),
        }
    }

    fn file(&self, url: &str) -> ModInfo {
        let (id, _, deps) = self
            .mods
            .iter()
            .find(|m| info_url(m.0, m.0 * 100) == url)
            .expect("unknown file");
        ModInfo {
            id: id * 100,
            display_name: format!("Mod {}", id),
            file_name: format!("mod{}.jar", id),
            download_url: format!("https://files/mod{}.jar", id),
            dependencies: deps.clone(),
        }
    }

    /// Drives a resolver to the end; returns the resolved ids and the ids fetched.
    fn resolve(&self, version: &str, root: u32) -> (Vec<u32>, Vec<u32>) {
        let mut r = Resolver::new(version, root);
        let mut fetched = vec![];
        while let Some(id) = r.next_needed() {
            fetched.push(id);
            let summary = self.summary(id);
            if let Some(url) = r.learn_summary(id, &summary) {
                r.learn_file(id, self.file(&url));
            }
        }
        (r.resolved().iter().map(|m| m.id).collect(), fetched)
    }
}

fn hard(id: u32) -> Dependency {
    Dependency { addon_id: id, dep_type: 3 }
}

fn optional(id: u32) -> Dependency {
    Dependency { addon_id: id, dep_type: 2 }
}

#[test]
fn hard_dependency_followed_optional_not() {
    let remote = Remote {
        mods: vec![
            (42, vec!["1.20.1"], vec![hard(7), optional(9)]),
            (7, vec!["1.20.1"], vec![]),
            (9, vec!["1.20.1"], vec![]),
        ],
    };
    let mut r = Resolver::new("1.20.1", 42);
    assert_eq!(r.next_needed(), Some(42));
    let url = r.learn_summary(42, &remote.summary(42));
    assert_eq!(url.as_deref(), Some("https://addons-ecs.forgesvc.net/api/v2/addon/42/file/4200"));
    r.learn_file(42, remote.file(&url.unwrap()));
    assert_eq!(r.next_needed(), Some(7));
    let url = r.learn_summary(7, &remote.summary(7)).unwrap();
    r.learn_file(7, remote.file(&url));
    assert_eq!(r.next_needed(), None);
    let list = r.resolved();
    assert_eq!(list.len(), 2);
    assert_eq!(list[0].id, 42);
    assert_eq!(list[0].file_name, "mod42.jar");
    assert_eq!(list[1].id, 7);
    assert_eq!(list[1].download_url, "https://files/mod7.jar");
}

#[test]
fn requested_mod_comes_first_then_preorder() {
    let remote = Remote {
        mods: vec![
            (1, vec!["1.20.1"], vec![hard(2), hard(3)]),
            (2, vec!["1.20.1"], vec![hard(4)]),
            (3, vec!["1.20.1"], vec![hard(4)]),
            (4, vec!["1.20.1"], vec![]),
        ],
    };
    let (ids, fetched) = remote.resolve("1.20.1", 1);
    assert_eq!(ids, vec![1, 2, 4, 3, 4]);
    assert_eq!(fetched, vec![1, 2, 4, 3]);
}

#[test]
fn no_file_for_version_gives_empty() {
    let remote = Remote { mods: vec![(5, vec!["1.16.4"], vec![hard(6)]), (6, vec!["1.20.1"], vec![])] };
    let (ids, fetched) = remote.resolve("1.20.1", 5);
    assert!(ids.is_empty());
    assert_eq!(fetched, vec![5]);
    let mut r = Resolver::new("1.20.1", 5);
    assert!(r.learn_summary(5, &remote.summary(5)).is_none());
    assert!(r.resolved().is_empty());
}

#[test]
fn dependency_without_file_contributes_nothing() {
    let remote = Remote {
        mods: vec![(1, vec!["1.20.1"], vec![hard(2), hard(3)]), (2, vec!["1.12"], vec![]), (3, vec!["1.20.1"], vec![])],
    };
    let (ids, _) = remote.resolve("1.20.1", 1);
    assert_eq!(ids, vec![1, 3]);
}

#[test]
fn cycle_ends() {
    let remote = Remote {
        mods: vec![(1, vec!["1.20.1"], vec![hard(2)]), (2, vec!["1.20.1"], vec![hard(1), hard(2)])],
    };
    let (ids, fetched) = remote.resolve("1.20.1", 1);
    assert_eq!(ids, vec![1, 2]);
    assert_eq!(fetched, vec![1, 2]);
}

#[test]
fn file_is_filed_under_requested_mod() {
    let remote = Remote { mods: vec![(11, vec!["1.20.1"], vec![])] };
    let mut r = Resolver::new("1.20.1", 11);
    let url = r.learn_summary(11, &remote.summary(11)).unwrap();
    let file = remote.file(&url);
    assert_eq!(file.id, 1100);
    r.learn_file(11, file);
    assert_eq!(r.resolved()[0].id, 11);
}
