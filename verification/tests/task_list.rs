use chronos::db::TaskRow;
use chronos::task_list::{matches_key, search_key, task_label, visible_children, visible_roots};

fn row(id: i64, parent_id: Option<i64>, name: &str, is_archived: bool) -> TaskRow {
    TaskRow {
        id,
        parent_id,
        name: name.to_string(),
        is_project: parent_id.is_none(),
        is_payable: true,
        is_archived,
        notes: String::new(),
        created_at: id,
    }
}

fn sample() -> Vec<TaskRow> {
    vec![
        row(1, None, "Client Work", false),
        row(2, Some(1), "Design", false),
        row(3, Some(2), "Logo SKETCH", false),
        row(4, None, "Personal", false),
        row(5, Some(4), "Reading", true),
        row(6, None, "Old Project", true),
        row(7, Some(3), "Deep Detail", false),
    ]
}

#[test]
fn search_keys_are_trimmed_and_lower_cased() {
    assert_eq!(search_key("  Logo Sketch "), "logo sketch");
    assert_eq!(search_key(""), "");
    assert_eq!(search_key("ÄBC"), "äbc");
}

#[test]
fn names_match_case_insensitively() {
    assert!(matches_key("Logo SKETCH", "sketch"));
    assert!(matches_key("Logo SKETCH", ""));
    assert!(matches_key("Design", "design"));
    assert!(!matches_key("Design", "Design"));
    assert!(!matches_key("Design", "designs"));
    assert!(matches_key("abc", "c"));
    assert!(!matches_key("", "a"));
}

#[test]
fn roots_show_when_they_or_their_family_match() {
    let tasks = sample();
    assert_eq!(visible_roots(&tasks, false, ""), vec![0, 3]);
    assert_eq!(visible_roots(&tasks, true, ""), vec![0, 3, 5]);
    assert_eq!(visible_roots(&tasks, false, "personal"), vec![3]);
    assert_eq!(visible_roots(&tasks, false, "design"), vec![0]);
    assert_eq!(visible_roots(&tasks, false, "sketch"), vec![0]);
    assert_eq!(visible_roots(&tasks, false, "detail"), Vec::<usize>::new());
    assert_eq!(visible_roots(&tasks, false, "reading"), vec![3]);
    assert_eq!(visible_roots(&tasks, true, "project"), vec![5]);
    assert_eq!(visible_roots(&tasks, false, "zzz"), Vec::<usize>::new());
}

#[test]
fn children_show_unless_archived() {
    let tasks = sample();
    assert_eq!(visible_children(&tasks, 1, false), vec![1]);
    assert_eq!(visible_children(&tasks, 4, false), Vec::<usize>::new());
    assert_eq!(visible_children(&tasks, 4, true), vec![4]);
    assert_eq!(visible_children(&tasks, 99, true), Vec::<usize>::new());
}

#[test]
fn task_labels_show_marks_and_time() {
    let tasks = sample();
    assert_eq!(task_label(&tasks[0], false, 3725), "\u{1F4C1} Client Work  [1h 02m 05s]");
    assert_eq!(task_label(&tasks[1], true, 5), "\u{25B6} \u{1F4CB} Design  [5s]");
    let mut unpaid = row(8, Some(1), "Chores", true);
    unpaid.is_payable = false;
    assert_eq!(task_label(&unpaid, false, 0), "\u{1F4CB} Chores \u{2697} \u{1F4E6}  [0s]");
}
