use cdl::models::ModInfo;
use cdl::planner::{EventType, Planner};

fn info(id: u32) -> ModInfo {
    ModInfo {
        id,
        display_name: format!("Mod {}", id),
        file_name: format!("mod{}.jar", id),
        download_url: format!("https://files/mod{}.jar", id),
        dependencies: vec![],
    }
}

fn describe(e: &EventType) -> (String, u32) {
    match e {
        EventType::MainAlreadyDownloaded(m) => (String::from("main-already"), m.id),
        EventType::MainDownloading(m) => (String::from("main-downloading"), m.id),
        EventType::MainDownloaded(m) => (String::from("main-downloaded"), m.id),
        EventType::MainError(m) => (String::from("main-error"), m.id),
        EventType::DepAlreadyDownloaded(m) => (String::from("dep-already"), m.id),
        EventType::DepDownloading(m) => (String::from("dep-downloading"), m.id),
        EventType::DepDownloaded(m) => (String::from("dep-downloaded"), m.id),
        EventType::DepError(m) => (String::from("dep-error"), m.id),
    }
}

/// Runs a batch over resolved lists; `on_disk` names the mods whose file exists, `fails`
/// those whose download fails. Returns every event and the downloads attempted.
fn run(lists: &[Vec<ModInfo>], on_disk: &[u32], fails: &[u32]) -> (Vec<(String, u32)>, Vec<u32>) {
    let mut planner = Planner::new();
    let mut events = vec![];
    let mut fetched = vec![];
    for list in lists {
        for (i, item) in list.iter().enumerate() {
            let main = i == 0;
            let e = planner.begin(item, main, on_disk.contains(&item.id));
            let started = matches!(e, EventType::MainDownloading(_) | EventType::DepDownloading(_));
            events.push(describe(&e));
            if started {
                fetched.push(item.id);
                let e = planner.finish(item, main, !fails.contains(&item.id));
                events.push(describe(&e));
            }
            assert!(planner.is_idle());
        }
    }
    (events, fetched)
}

fn ev(kind: &str, id: u32) -> (String, u32) {
    (String::from(kind), id)
}

#[test]
fn shared_dependency_downloaded_once() {
    let lists = vec![vec![info(1), info(3)], vec![info(2), info(3)]];
    let (events, fetched) = run(&lists, &[], &[]);
    assert_eq!(fetched, vec![1, 3, 2]);
    assert_eq!(
        events,
        vec![
            ev("main-downloading", 1),
            ev("main-downloaded", 1),
            ev("dep-downloading", 3),
            ev("dep-downloaded", 3),
            ev("main-downloading", 2),
            ev("main-downloaded", 2),
            ev("dep-already", 3),
        ]
    );
}

#[test]
fn file_on_disk_is_not_fetched() {
    let lists = vec![vec![info(1), info(2)]];
    let (events, fetched) = run(&lists, &[1], &[]);
    assert_eq!(fetched, vec![2]);
    assert_eq!(
        events,
        vec![ev("main-already", 1), ev("dep-downloading", 2), ev("dep-downloaded", 2)]
    );
}

#[test]
fn failed_download_is_retried_later_in_batch() {
    let lists = vec![vec![info(1), info(3)], vec![info(2), info(3)]];
    let (events, fetched) = run(&lists, &[], &[3]);
    assert_eq!(fetched, vec![1, 3, 2, 3]);
    assert_eq!(events[3], ev("dep-error", 3));
    assert_eq!(events[7], ev("dep-error", 3));
}

#[test]
fn ledger_records_only_successes() {
    let mut planner = Planner::new();
    let a = info(4);
    let b = info(5);
    let _ = planner.begin(&a, true, false);
    let _ = planner.finish(&a, true, true);
    let _ = planner.begin(&b, false, false);
    let _ = planner.finish(&b, false, false);
    assert!(planner.downloaded(4));
    assert!(!planner.downloaded(5));
    let e = planner.begin(&a, false, false);
    assert_eq!(describe(&e), ev("dep-already", 4));
}
