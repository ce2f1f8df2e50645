use bid_tracker::checklist::checklist_from_sheet;
use bid_tracker::{build_checklist_tree, is_subtask_name, new_item, parse_folder_name, ChecklistItem};

fn rows(texts: &[&str]) -> Vec<String> {
    texts.iter().map(|t| t.to_string()).collect()
}

fn names(items: &[ChecklistItem]) -> Vec<String> {
    items.iter().map(|i| i.name.clone()).collect()
}

#[test]
fn folder_name_with_dash() {
    assert_eq!(
        parse_folder_name("04.28 - Proiect Test"),
        Some(("04.28".to_string(), "Proiect Test".to_string()))
    );
}

#[test]
fn folder_name_without_stamp() {
    assert_eq!(parse_folder_name("Random Folder"), None);
}

#[test]
fn folder_name_dash_without_spaces() {
    assert_eq!(parse_folder_name("12.01-X"), Some(("12.01".to_string(), "X".to_string())));
}

#[test]
fn folder_name_space_separator_and_outer_spaces() {
    assert_eq!(
        parse_folder_name("  05.06   Title kept  "),
        Some(("05.06".to_string(), "Title kept".to_string()))
    );
}

#[test]
fn folder_name_trailing_dash_is_title() {
    assert_eq!(parse_folder_name("04.28 -"), Some(("04.28".to_string(), "-".to_string())));
}

#[test]
fn folder_name_needs_separator() {
    assert_eq!(parse_folder_name("04.28Title"), None);
    assert_eq!(parse_folder_name("04.28\tTitle"), None);
    assert_eq!(parse_folder_name("4.28 - Title"), None);
    assert_eq!(parse_folder_name("04.28"), None);
}

#[test]
fn classify_examples() {
    assert!(is_subtask_name("  Sub item"));
    assert!(is_subtask_name("iii design review"));
    assert!(is_subtask_name("1.1 spec"));
    assert!(!is_subtask_name("General Requirements"));
}

#[test]
fn classify_markers() {
    assert!(is_subtask_name("- bullet"));
    assert!(is_subtask_name("> quoted"));
    assert!(is_subtask_name("* star"));
    assert!(is_subtask_name(" < angle"));
    assert!(is_subtask_name("a) lettered"));
    assert!(is_subtask_name("B. lettered"));
    assert!(is_subtask_name("x"));
    assert!(is_subtask_name("viii, eight"));
    assert!(is_subtask_name("12.30 section"));
}

#[test]
fn classify_top_level() {
    assert!(!is_subtask_name("ivy league"));
    assert!(!is_subtask_name("via ferrata"));
    assert!(!is_subtask_name("12 items"));
    assert!(!is_subtask_name("1. first"));
    assert!(!is_subtask_name(" Single space"));
    assert!(!is_subtask_name("v\u{103}zut"));
}

#[test]
fn tree_groups_subtasks_under_last_parent() {
    let forest = build_checklist_tree(&rows(&["Phase 1", "  Design", "  Build", "Phase 2"]));
    assert_eq!(names(&forest), vec!["Phase 1", "Phase 2"]);
    assert_eq!(names(&forest[0].sub_tasks), vec!["Design", "Build"]);
    assert!(forest[1].sub_tasks.is_empty());
    for item in forest.iter().chain(forest[0].sub_tasks.iter()) {
        assert_eq!(item.status, "incomplete");
        assert!(!item.proposed);
        assert!(!item.verified);
        assert!(item.sub_tasks.is_empty() || item.name == "Phase 1");
    }
}

#[test]
fn tree_promotes_orphan_subtask() {
    let forest = build_checklist_tree(&rows(&["  orphan sub", "Phase 1"]));
    assert_eq!(names(&forest), vec!["orphan sub", "Phase 1"]);
    assert!(forest[0].sub_tasks.is_empty());
    assert!(forest[1].sub_tasks.is_empty());
}

#[test]
fn tree_orphan_becomes_parent_of_next_subtask() {
    let forest = build_checklist_tree(&rows(&["- first", "- second", "", "   ", "Top", "a) x"]));
    assert_eq!(names(&forest), vec!["- first", "Top"]);
    assert_eq!(names(&forest[0].sub_tasks), vec!["- second"]);
    assert_eq!(names(&forest[1].sub_tasks), vec!["a) x"]);
}

#[test]
fn tree_of_no_rows_is_empty() {
    assert!(build_checklist_tree(&Vec::new()).is_empty());
}

#[test]
fn sheet_skips_heading_rows() {
    let cells = rows(&["h1", "h2", "h3", "h4", "h5", "Phase", "  step", ""]);
    let forest = checklist_from_sheet(&cells);
    assert_eq!(names(&forest), vec!["Phase"]);
    assert_eq!(names(&forest[0].sub_tasks), vec!["step"]);
    assert!(checklist_from_sheet(&rows(&["a", "b"])).is_empty());
}

#[test]
fn new_item_is_fresh() {
    let item = new_item("Personal");
    assert_eq!(item.name, "Personal");
    assert_eq!(item.status, "incomplete");
    assert!(!item.proposed && !item.verified && item.sub_tasks.is_empty() && item.extra.is_empty());
}

#[test]
fn folder_name_trims_unicode_white_space() {
    assert_eq!(
        parse_folder_name("\u{a0}04.28 -\u{2003}Proiect\u{3000}"),
        Some(("04.28".to_string(), "Proiect".to_string()))
    );
}
