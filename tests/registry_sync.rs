use bid_tracker::ordering::{date_key_of, parse_i32, sort_by_date};
use bid_tracker::reconcile::{last_index_of, reconcile, FolderEntry};
use bid_tracker::registry::{
    add_project, delete_project, edit_project, max_project_id, new_default_categories,
    set_excel_path, set_project_folder, RegistryError,
};
use bid_tracker::{cfg_path, Db, Project};

fn project(id: i64, title: &str, date: &str) -> Project {
    Project {
        id,
        title: title.to_string(),
        date: date.to_string(),
        categories: new_default_categories(),
        folder_path: None,
        extra: Vec::new(),
    }
}

fn folder(name: &str) -> FolderEntry {
    FolderEntry { name: name.to_string(), path: format!("/work/Publice/{}", name) }
}

fn summary(db: &Db) -> Vec<(i64, String, String, Option<String>)> {
    db.projects
        .iter()
        .map(|p| (p.id, p.title.clone(), p.date.clone(), p.folder_path.clone()))
        .collect()
}

#[test]
fn reconcile_updates_date_of_known_title() {
    let mut db = Db { extra: Vec::new(), projects: vec![project(7, "Alpha", "01.01.2025")] };
    assert_eq!(reconcile(&mut db, &vec![folder("02.02 - Alpha")], "2025"), Ok(()));
    assert_eq!(summary(&db), vec![(7, "Alpha".to_string(), "02.02.2025".to_string(), None)]);
}

#[test]
fn reconcile_matches_title_in_any_case() {
    let mut db = Db { extra: Vec::new(), projects: vec![project(3, "ALPHA", "01.01.2025")] };
    assert_eq!(reconcile(&mut db, &vec![folder("02.02 - alpha")], "2025"), Ok(()));
    assert_eq!(summary(&db), vec![(3, "alpha".to_string(), "02.02.2025".to_string(), None)]);
}

#[test]
fn reconcile_creates_unknown_title() {
    let mut db = Db { extra: Vec::new(), projects: vec![project(4, "Alpha", "01.01.2025")] };
    assert_eq!(reconcile(&mut db, &vec![folder("03.03 - Beta")], "2025"), Ok(()));
    assert_eq!(db.projects.len(), 2);
    let beta = &db.projects[1];
    assert_eq!(beta.id, 5);
    assert_eq!(beta.title, "Beta");
    assert_eq!(beta.date, "03.03.2025");
    assert_eq!(beta.folder_path.as_deref(), Some("/work/Publice/03.03 - Beta"));
    let cats: Vec<&str> = beta.categories.iter().map(|c| c.name.as_str()).collect();
    assert_eq!(cats, vec!["Eligibilitate", "Financiar", "Tehnic", "PTE/PCCVI"]);
}

#[test]
fn reconcile_leaves_agreeing_dates_and_odd_names() {
    let mut db = Db { extra: Vec::new(), projects: vec![project(1, "Alpha", "02.02.2024")] };
    let folders = vec![folder("02.02 - alpha"), folder("Random Folder")];
    assert_eq!(reconcile(&mut db, &folders, "2025"), Ok(()));
    assert_eq!(summary(&db), vec![(1, "Alpha".to_string(), "02.02.2024".to_string(), None)]);
}

#[test]
fn reconcile_twice_changes_nothing_more() {
    let mut db = Db {
        extra: vec![("version".to_string(), "2".to_string())],
        projects: vec![project(1, "Alpha", "01.01.2025"), project(2, "Gamma", "05.05.2025")],
    };
    let folders = vec![folder("02.02 - Alpha"), folder("03.03 - Beta"), folder("05.05 Gamma"), folder("x")];
    assert_eq!(reconcile(&mut db, &folders, "2025"), Ok(()));
    let once = summary(&db);
    assert_eq!(reconcile(&mut db, &folders, "2025"), Ok(()));
    assert_eq!(summary(&db), once);
    assert_eq!(once.len(), 3);
}

#[test]
fn reconcile_refuses_when_ids_run_out() {
    let mut db = Db { extra: Vec::new(), projects: vec![project(i64::MAX, "Alpha", "01.01.2025")] };
    assert_eq!(
        reconcile(&mut db, &vec![folder("03.03 - Beta")], "2025"),
        Err(RegistryError::IdSpaceExhausted)
    );
    assert_eq!(db.projects.len(), 1);
}

#[test]
fn add_project_takes_next_id() {
    let mut db = Db { extra: Vec::new(), projects: vec![project(3, "A", "01.01.2025"), project(9, "B", "01.01.2025")] };
    assert_eq!(add_project(&mut db, "C".to_string(), "02.02.2025".to_string()), Ok(10));
    assert_eq!(max_project_id(&db), 10);
    let mut empty = Db { projects: Vec::new(), extra: Vec::new() };
    assert_eq!(add_project(&mut empty, "First".to_string(), "02.02.2025".to_string()), Ok(1));
    let eligibility = &empty.projects[0].categories[0];
    assert_eq!(eligibility.checklist.len(), 6);
    assert_eq!(eligibility.checklist[2].name, "\u{ce}mputerniciri");
}

#[test]
fn edit_and_delete_by_id() {
    let mut db = Db { extra: Vec::new(), projects: vec![project(1, "A", "01.01.2025"), project(2, "B", "01.01.2025")] };
    assert_eq!(edit_project(&mut db, 2, "B2".to_string(), "09.09.2025".to_string()), Ok(()));
    assert_eq!(db.projects[1].title, "B2");
    assert_eq!(db.projects[1].date, "09.09.2025");
    assert_eq!(
        edit_project(&mut db, 5, "X".to_string(), "01.01.2025".to_string()),
        Err(RegistryError::NotFound)
    );
    delete_project(&mut db, 1);
    assert_eq!(summary(&db), vec![(2, "B2".to_string(), "09.09.2025".to_string(), None)]);
}

#[test]
fn folder_and_excel_paths() {
    let mut db = Db { extra: Vec::new(), projects: vec![project(1, "A", "01.01.2025")] };
    assert!(set_project_folder(&mut db, 1, Some("/p/A".to_string())));
    assert_eq!(db.projects[0].folder_path.as_deref(), Some("/p/A"));
    assert!(!set_project_folder(&mut db, 2, Some("/p/B".to_string())));
    assert!(set_excel_path(&mut db, 1, Some("/x/tech.xlsx".to_string())));
    assert_eq!(db.projects[0].categories[2].excel_path.as_deref(), Some("/x/tech.xlsx"));
    assert!(set_excel_path(&mut db, 1, None));
    assert_eq!(db.projects[0].categories[2].excel_path, None);
    db.projects[0].categories.clear();
    assert!(!set_excel_path(&mut db, 1, Some("/x".to_string())));
}

#[test]
fn sort_newest_first_and_stable() {
    let mut db = Db {
        extra: vec![("version".to_string(), "2".to_string())],
        projects: vec![
            project(1, "old", "01.02.2024"),
            project(2, "bad", "not a date"),
            project(3, "new", "12.01.2025"),
            project(4, "mid", "03.15.2025"),
            project(5, "new too", "12.01.2025"),
        ],
    };
    sort_by_date(&mut db);
    let ids: Vec<i64> = db.projects.iter().map(|p| p.id).collect();
    assert_eq!(ids, vec![3, 5, 4, 1, 2]);
    assert_eq!(db.extra, vec![("version".to_string(), "2".to_string())]);
}

#[test]
fn date_keys() {
    assert_eq!(date_key_of("04.28.2025"), (2025, 4, 28));
    assert_eq!(date_key_of("04.28"), (0, 0, 0));
    assert_eq!(date_key_of("04.28.2025.1"), (0, 0, 0));
    assert_eq!(date_key_of("+4.28.-3"), (-3, 4, 28));
    assert_eq!(parse_i32("-2147483648"), Some(i32::MIN));
    assert_eq!(parse_i32("2147483648"), None);
    assert_eq!(parse_i32("-+1"), None);
}

#[test]
fn config_file_beside_program() {
    assert_eq!(cfg_path("/opt/app"), "/opt/app/config.json");
    assert_eq!(cfg_path("/opt/app/"), "/opt/app/config.json");
    assert_eq!(cfg_path(""), "config.json");
}

#[test]
fn add_project_refused_without_free_id() {
    let mut db = Db { extra: Vec::new(), projects: vec![project(i64::MAX, "A", "01.01.2025")] };
    assert_eq!(
        add_project(&mut db, "B".to_string(), "01.01.2025".to_string()),
        Err(RegistryError::IdSpaceExhausted)
    );
    assert_eq!(db.projects.len(), 1);
}

#[test]
fn delete_removes_every_project_with_the_id() {
    let mut db = Db {
        extra: vec![("version".to_string(), "2".to_string())],
        projects: vec![project(1, "A", "01.01.2025"), project(2, "B", "01.01.2025"), project(1, "C", "01.01.2025")],
    };
    delete_project(&mut db, 1);
    assert_eq!(summary(&db), vec![(2, "B".to_string(), "01.01.2025".to_string(), None)]);
    delete_project(&mut db, 9);
    assert_eq!(db.projects.len(), 1);
}

#[test]
fn reconcile_on_empty_registry_starts_at_one() {
    let mut db = Db { projects: Vec::new(), extra: Vec::new() };
    let folders = vec![folder("01.15 - First"), folder("02.20 Second")];
    assert_eq!(reconcile(&mut db, &folders, "2026"), Ok(()));
    let ids: Vec<i64> = db.projects.iter().map(|p| p.id).collect();
    assert_eq!(ids, vec![1, 2]);
    assert_eq!(db.projects[1].date, "02.20.2026");
}

#[test]
fn reconcile_skips_odd_names_even_without_free_id() {
    let mut db = Db { projects: vec![project(i64::MAX, "Alpha", "01.01.2025")], extra: Vec::new() };
    assert_eq!(reconcile(&mut db, &vec![folder("Random Folder")], "2025"), Ok(()));
    assert_eq!(reconcile(&mut db, &vec![folder("02.02 - Alpha")], "2025"), Ok(()));
    assert_eq!(summary(&db), vec![(i64::MAX, "Alpha".to_string(), "02.02.2025".to_string(), None)]);
}

#[test]
fn reconcile_refusal_changes_nothing() {
    let mut db = Db { projects: vec![project(i64::MAX - 1, "Alpha", "01.01.2025")], extra: Vec::new() };
    let folders = vec![folder("02.02 - Alpha"), folder("03.03 - Beta"), folder("04.04 - Gamma")];
    assert_eq!(reconcile(&mut db, &folders, "2025"), Err(RegistryError::IdSpaceExhausted));
    assert_eq!(summary(&db), vec![(i64::MAX - 1, "Alpha".to_string(), "01.01.2025".to_string(), None)]);
    let fewer = vec![folder("02.02 - Alpha"), folder("03.03 - Beta")];
    assert_eq!(reconcile(&mut db, &fewer, "2025"), Ok(()));
    assert_eq!(db.projects[1].id, i64::MAX);
}

#[test]
fn last_equal_key_wins() {
    let keys: Vec<String> = vec!["alpha".to_string(), "beta".to_string(), "alpha".to_string()];
    assert_eq!(last_index_of(&keys, &"alpha".to_string()), Some(2));
    assert_eq!(last_index_of(&keys, &"beta".to_string()), Some(1));
    assert_eq!(last_index_of(&keys, &"Alpha".to_string()), None);
    assert_eq!(last_index_of(&Vec::new(), &"alpha".to_string()), None);
}
