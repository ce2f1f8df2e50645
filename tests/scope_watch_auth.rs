use bid_tracker::auth::{login, register_user, AuthError, Role};
use bid_tracker::scope::{parse_u32, PathKind, ScopeConfig, YearPaths};
use bid_tracker::watcher::{observed_folder, WatchCommand, WatchState, WatchSupervisor};

fn paths(db: &str) -> YearPaths {
    YearPaths { db_path: db.to_string(), users_path: String::new(), projects_dir: "/dir".to_string() }
}

#[test]
fn switch_stops_old_watcher_before_starting_new() {
    let mut sup = WatchSupervisor::new("/2025".to_string());
    assert_eq!(sup.start(), vec![WatchCommand::Start { generation: 0 }]);
    assert!(sup.start().is_empty());
    let cmds = sup.switch_scope("/2026".to_string());
    assert_eq!(cmds, vec![WatchCommand::Stop { generation: 0 }, WatchCommand::Start { generation: 1 }]);
    assert_eq!(sup.root, "/2026");
    assert!(!sup.accepts_event(0, true));
    assert!(sup.accepts_event(1, true));
    assert!(!sup.accepts_event(1, false));
}

#[test]
fn watcher_stop_and_failed_start() {
    let mut sup = WatchSupervisor::new("/r".to_string());
    assert_eq!(sup.stop(), Vec::new());
    sup.start();
    sup.start_failed(0);
    assert_eq!(sup.state, WatchState::Stopped);
    assert_eq!(sup.switch_scope("/s".to_string()), vec![WatchCommand::Start { generation: 1 }]);
    assert_eq!(sup.stop(), vec![WatchCommand::Stop { generation: 1 }]);
    assert!(!sup.accepts_event(1, true));
}

#[test]
fn observed_folder_only_after_success() {
    let ok: Result<(), String> = Ok(());
    let failed: Result<(), String> = Err("io".to_string());
    assert_eq!(observed_folder(&ok, Some("04.28 - X".to_string())), Some("04.28 - X".to_string()));
    assert_eq!(observed_folder(&failed, Some("04.28 - X".to_string())), None);
}

#[test]
fn scope_paths_and_years() {
    let mut cfg = ScopeConfig::skeleton();
    assert_eq!(cfg.current_year, "2025");
    assert_eq!(cfg.current_path(PathKind::Registry), None);
    assert!(cfg.set_current_path(PathKind::Registry, "/db.json".to_string()));
    assert_eq!(cfg.current_path(PathKind::Registry), Some("/db.json".to_string()));
    assert_eq!(cfg.current_path(PathKind::ProjectsDir), None);
    assert_eq!(cfg.next_year(), Some(2026));
    cfg.add_year("2026".to_string(), paths("/db26.json"));
    assert_eq!(cfg.current_year, "2026");
    assert_eq!(cfg.list_years(), vec!["2025".to_string(), "2026".to_string()]);
    assert_eq!(cfg.current_path(PathKind::Registry), Some("/db26.json".to_string()));
    assert_eq!(cfg.next_year(), Some(2027));
    cfg.switch_year("2030".to_string());
    assert_eq!(cfg.current_path(PathKind::Registry), None);
    assert!(!cfg.set_current_path(PathKind::Users, "/u".to_string()));
}

#[test]
fn next_year_without_numeric_years() {
    let mut cfg = ScopeConfig { current_year: "a".to_string(), years: Vec::new() };
    assert_eq!(cfg.next_year(), Some(2026));
    cfg.add_year("1999".to_string(), paths(""));
    cfg.add_year("draft".to_string(), paths(""));
    assert_eq!(cfg.next_year(), Some(2000));
    cfg.add_year("4294967295".to_string(), paths(""));
    assert_eq!(cfg.next_year(), None);
}

#[test]
fn parse_years() {
    assert_eq!(parse_u32("2025"), Some(2025));
    assert_eq!(parse_u32("+7"), Some(7));
    assert_eq!(parse_u32("+"), None);
    assert_eq!(parse_u32(""), None);
    assert_eq!(parse_u32("-1"), None);
    assert_eq!(parse_u32("4294967296"), None);
    assert_eq!(parse_u32("20x5"), None);
}

#[test]
fn register_then_login() {
    let mut users = Vec::new();
    let roles = vec![("Tehnic".to_string(), Role { editor: true, verificator: false })];
    assert_eq!(
        register_user(&mut users, "ana.example.com".to_string(), "secret1".to_string(), Vec::new()),
        Err(AuthError::InvalidMail)
    );
    assert_eq!(
        register_user(&mut users, "ana@example.com".to_string(), "short".to_string(), Vec::new()),
        Err(AuthError::PasswordTooShort)
    );
    assert_eq!(register_user(&mut users, "ana@example.com".to_string(), "secret1".to_string(), roles), Ok(()));
    assert_eq!(users.len(), 1);
    assert_ne!(users[0].password_hash, "secret1");
    assert_eq!(
        register_user(&mut users, "ana@example.com".to_string(), "another1".to_string(), Vec::new()),
        Err(AuthError::MailTaken)
    );
    assert_eq!(login(&users, "ana@example.com", "secret1"), Some(0));
    assert_eq!(login(&users, "ana@example.com", "wrong-pass"), None);
    assert_eq!(login(&users, "bob@example.com", "secret1"), None);
}
