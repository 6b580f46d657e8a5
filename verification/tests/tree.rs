use chronos::tree::{TaskTree, TreeError};


#[test]
fn new_tree_is_empty() {
    let tree = TaskTree::new();
    assert!(tree.is_empty());
    assert_eq!(tree.len(), 0);
}

#[test]
fn add_root_task() {
    let mut tree = TaskTree::new();
    let id = tree.add_task(None, "Project Alpha", true, true).unwrap();
    assert_eq!(tree.len(), 1);
    let task = tree.get_task(id).unwrap();
    assert_eq!(task.name, "Project Alpha");
    assert!(task.is_project);
    assert!(task.is_payable);
    assert!(task.parent_id.is_none());
}

#[test]
fn add_child_task() {
    let mut tree = TaskTree::new();
    let parent_id = tree.add_task(None, "Project", true, true).unwrap();
    let child_id = tree
        .add_task(Some(parent_id), "Subtask", false, true)
        .unwrap();
    let child = tree.get_task(child_id).unwrap();
    assert_eq!(child.parent_id, Some(parent_id));
}

#[test]
fn reject_empty_name() {
    let mut tree = TaskTree::new();
    assert!(tree.add_task(None, "  ", true, true).is_err());
}

#[test]
fn reject_duplicate_name_same_parent() {
    let mut tree = TaskTree::new();
    tree.add_task(None, "Task", true, true).unwrap();
    assert!(tree.add_task(None, "Task", true, true).is_err());
}

#[test]
fn allow_duplicate_name_different_parent() {
    let mut tree = TaskTree::new();
    let p1 = tree.add_task(None, "Project 1", true, true).unwrap();
    let p2 = tree.add_task(None, "Project 2", true, true).unwrap();
    tree.add_task(Some(p1), "Same Name", false, true).unwrap();
    tree.add_task(Some(p2), "Same Name", false, true).unwrap();
    assert_eq!(tree.len(), 4);
}

#[test]
fn reject_invalid_parent() {
    let mut tree = TaskTree::new();
    assert!(tree.add_task(Some(999), "Orphan", false, true).is_err());
}

#[test]
fn reject_cyclic_parent() {
    let mut tree = TaskTree::new();
    let a = tree.add_task(None, "A", true, true).unwrap();
    let b = tree.add_task(Some(a), "B", true, true).unwrap();
    assert!(
        tree.would_create_cycle(b, a),
        "making B a parent of A should create a cycle"
    );
}

#[test]
fn add_deeply_nested_task() {
    let mut tree = TaskTree::new();
    let a = tree.add_task(None, "A", true, true).unwrap();
    let b = tree.add_task(Some(a), "B", true, true).unwrap();
    let c = tree.add_task(Some(b), "C", true, true).unwrap();
    let d = tree.add_task(Some(c), "D", true, true).unwrap();
    assert_eq!(tree.len(), 4);
    assert_eq!(tree.path_to_root(d), vec![d, c, b, a]);
}

#[test]
fn remove_task_cascades() {
    let mut tree = TaskTree::new();
    let parent = tree.add_task(None, "Parent", true, true).unwrap();
    let child = tree.add_task(Some(parent), "Child", false, true).unwrap();
    tree.add_task(Some(child), "Grandchild", false, true)
        .unwrap();
    assert_eq!(tree.len(), 3);
    tree.remove_task(parent).unwrap();
    assert!(tree.is_empty());
}

#[test]
fn remove_nonexistent_task() {
    let mut tree = TaskTree::new();
    assert!(tree.remove_task(42).is_err());
}

#[test]
fn rename_task() {
    let mut tree = TaskTree::new();
    let id = tree.add_task(None, "Old Name", true, true).unwrap();
    tree.rename_task(id, "New Name").unwrap();
    assert_eq!(tree.get_task(id).unwrap().name, "New Name");
}

#[test]
fn rename_to_empty_fails() {
    let mut tree = TaskTree::new();
    let id = tree.add_task(None, "Task", true, true).unwrap();
    assert!(tree.rename_task(id, "").is_err());
}

#[test]
fn tree_archive_and_unarchive() {
    let mut tree = TaskTree::new();
    let id = tree.add_task(None, "Task", true, true).unwrap();
    tree.archive_task(id).unwrap();
    assert!(tree.get_task(id).unwrap().is_archived);
    tree.unarchive_task(id).unwrap();
    assert!(!tree.get_task(id).unwrap().is_archived);
}

#[test]
fn children_of() {
    let mut tree = TaskTree::new();
    let p = tree.add_task(None, "P", true, true).unwrap();
    let c1 = tree.add_task(Some(p), "C1", false, true).unwrap();
    let c2 = tree.add_task(Some(p), "C2", false, true).unwrap();
    tree.add_task(None, "Other", false, true).unwrap();
    let children = tree.children_of(p);
    let mut child_ids: Vec<i64> = children.iter().map(|t| t.id).collect();
    child_ids.sort();
    let mut expected = vec![c1, c2];
    expected.sort();
    assert_eq!(child_ids, expected);
}

#[test]
fn root_tasks() {
    let mut tree = TaskTree::new();
    let r1 = tree.add_task(None, "Root 1", true, true).unwrap();
    let r2 = tree.add_task(None, "Root 2", true, true).unwrap();
    let p = tree.add_task(Some(r1), "Child", false, true).unwrap();
    let roots: Vec<i64> = tree.root_tasks().iter().map(|t| t.id).collect();
    assert!(roots.contains(&r1));
    assert!(roots.contains(&r2));
    assert!(!roots.contains(&p));
}

#[test]
fn descendants() {
    let mut tree = TaskTree::new();
    let a = tree.add_task(None, "A", true, true).unwrap();
    let b = tree.add_task(Some(a), "B", true, true).unwrap();
    let c = tree.add_task(Some(b), "C", false, true).unwrap();
    let d = tree.add_task(Some(a), "D", false, true).unwrap();
    let desc = tree.descendants(a);
    assert!(desc.contains(&b));
    assert!(desc.contains(&c));
    assert!(desc.contains(&d));
    assert_eq!(desc.len(), 3);
}

#[test]
fn path_to_root() {
    let mut tree = TaskTree::new();
    let a = tree.add_task(None, "A", true, true).unwrap();
    let b = tree.add_task(Some(a), "B", true, true).unwrap();
    let c = tree.add_task(Some(b), "C", false, true).unwrap();
    let path = tree.path_to_root(c);
    assert_eq!(path, vec![c, b, a]);
}

#[test]
fn update_and_cumulative_duration() {
    let mut tree = TaskTree::new();
    let p = tree.add_task(None, "Project", true, true).unwrap();
    let t1 = tree.add_task(Some(p), "Task 1", false, true).unwrap();
    let t2 = tree.add_task(Some(p), "Task 2", false, true).unwrap();

    tree.update_duration(t1, 3600).unwrap();
    tree.update_duration(t2, 1800).unwrap();
    tree.update_duration(p, 600).unwrap();

    assert_eq!(tree.cumulative_duration(t1).unwrap(), 3600);
    assert_eq!(tree.cumulative_duration(t2).unwrap(), 1800);
    assert_eq!(tree.cumulative_duration(p).unwrap(), 6000);
}

#[test]
fn task_tree_complete_workflow() {
    let mut tree = TaskTree::new();

    let project = tree.add_task(None, "Client Project", true, true).unwrap();
    let dev = tree
        .add_task(Some(project), "Development", false, true)
        .unwrap();
    let meeting = tree
        .add_task(Some(project), "Meeting", false, false)
        .unwrap();

    assert_eq!(tree.root_tasks().len(), 1);
    assert_eq!(tree.children_of(project).len(), 2);

    tree.update_duration(dev, 7200).unwrap();
    tree.update_duration(meeting, 3600).unwrap();

    assert_eq!(tree.cumulative_duration(project).unwrap(), 10800);
    assert_eq!(tree.cumulative_duration(dev).unwrap(), 7200);

    let path = tree.path_to_root(dev);
    assert_eq!(path, vec![dev, project]);
}

#[test]
fn task_tree_nested_cumulative_duration() {
    let mut tree = TaskTree::new();

    let root = tree.add_task(None, "Root", true, true).unwrap();
    let a = tree.add_task(Some(root), "A", true, true).unwrap();
    let b = tree.add_task(Some(root), "B", true, true).unwrap();
    let a1 = tree.add_task(Some(a), "A1", false, true).unwrap();
    let a2 = tree.add_task(Some(a), "A2", false, true).unwrap();
    let b1 = tree.add_task(Some(b), "B1", false, true).unwrap();

    tree.update_duration(a1, 1000).unwrap();
    tree.update_duration(a2, 2000).unwrap();
    tree.update_duration(b1, 3000).unwrap();
    tree.update_duration(root, 500).unwrap();

    assert_eq!(tree.cumulative_duration(a1).unwrap(), 1000);
    assert_eq!(tree.cumulative_duration(a).unwrap(), 3000);
    assert_eq!(tree.cumulative_duration(b).unwrap(), 3000);
    assert_eq!(tree.cumulative_duration(root).unwrap(), 6500);
}

#[test]
fn add_task_trims_name() {
    let mut tree = TaskTree::new();
    let id = tree.add_task(None, "  Padded\t", false, false).unwrap();
    assert_eq!(tree.get_task(id).unwrap().name, "Padded");
    assert!(tree.add_task(None, "Padded", false, false).is_err());
}

#[test]
fn add_task_errors_are_exact() {
    let mut tree = TaskTree::new();
    assert_eq!(tree.add_task(None, "", true, true), Err(TreeError::DuplicateName));
    assert_eq!(tree.add_task(Some(7), "X", true, true), Err(TreeError::InvalidParent));
    let a = tree.add_task(None, "A", true, true).unwrap();
    assert_eq!(a, 1);
    assert_eq!(tree.add_task(None, "A", true, true), Err(TreeError::DuplicateName));
    assert_eq!(tree.add_task(Some(a), "A", true, true), Ok(2));
    assert_eq!(tree.len(), 2);
}

#[test]
fn ids_keep_increasing_after_removal() {
    let mut tree = TaskTree::new();
    let a = tree.add_task(None, "A", true, true).unwrap();
    tree.remove_task(a).unwrap();
    let b = tree.add_task(None, "B", true, true).unwrap();
    assert_eq!(b, a + 1);
}

#[test]
fn rename_errors_are_exact() {
    let mut tree = TaskTree::new();
    let a = tree.add_task(None, "A", true, true).unwrap();
    let b = tree.add_task(None, "B", true, true).unwrap();
    assert_eq!(tree.rename_task(99, ""), Err(TreeError::DuplicateName));
    assert_eq!(tree.rename_task(99, "Z"), Err(TreeError::NotFound(99)));
    assert_eq!(tree.rename_task(b, " A "), Err(TreeError::DuplicateName));
    assert_eq!(tree.rename_task(a, " A "), Ok(()));
    assert_eq!(tree.get_task(a).unwrap().name, "A");
}

#[test]
fn not_found_errors_carry_the_id() {
    let mut tree = TaskTree::new();
    assert_eq!(tree.archive_task(5), Err(TreeError::NotFound(5)));
    assert_eq!(tree.unarchive_task(6), Err(TreeError::NotFound(6)));
    assert_eq!(tree.update_duration(7, 1), Err(TreeError::NotFound(7)));
    assert_eq!(tree.cumulative_duration(8), Err(TreeError::NotFound(8)));
    assert_eq!(tree.remove_task(9), Err(TreeError::NotFound(9)));
}

#[test]
fn remove_subtree_keeps_others() {
    let mut tree = TaskTree::new();
    let a = tree.add_task(None, "A", true, true).unwrap();
    let b = tree.add_task(Some(a), "B", true, true).unwrap();
    let c = tree.add_task(None, "C", true, true).unwrap();
    let d = tree.add_task(Some(c), "D", true, true).unwrap();
    tree.remove_task(a).unwrap();
    assert!(tree.get_task(a).is_none());
    assert!(tree.get_task(b).is_none());
    let ids: Vec<i64> = tree.all_tasks().iter().map(|t| t.id).collect();
    assert_eq!(ids, vec![c, d]);
}

#[test]
fn get_task_mut_changes_the_task() {
    let mut tree = TaskTree::new();
    let a = tree.add_task(None, "A", true, true).unwrap();
    tree.get_task_mut(a).unwrap().is_payable = false;
    assert!(!tree.get_task(a).unwrap().is_payable);
    assert!(tree.get_task_mut(a + 1).is_none());
}

#[test]
fn cycle_check_and_paths_agree() {
    let mut tree = TaskTree::new();
    let a = tree.add_task(None, "A", true, true).unwrap();
    let b = tree.add_task(Some(a), "B", true, true).unwrap();
    let c = tree.add_task(Some(b), "C", true, true).unwrap();
    for x in [a, b, c, 42] {
        let path = tree.path_to_root(x);
        for y in [a, b, c, 42] {
            assert_eq!(tree.would_create_cycle(x, y), path.contains(&y));
        }
    }
    assert_eq!(tree.path_to_root(42), vec![42]);
    assert_eq!(tree.descendants(b), vec![c]);
    assert_eq!(tree.descendants(c), Vec::<i64>::new());
}

#[test]
fn cumulative_duration_of_leaf_is_own_time() {
    let mut tree = TaskTree::new();
    let a = tree.add_task(None, "A", true, true).unwrap();
    assert_eq!(tree.cumulative_duration(a), Ok(0));
    tree.update_duration(a, 5).unwrap();
    tree.update_duration(a, 7).unwrap();
    assert_eq!(tree.cumulative_duration(a), Ok(12));
    assert_eq!(tree.get_task(a).unwrap().total_duration_secs, 12);
}

#[test]
fn rename_and_back_restores_the_tree() {
    let mut tree = TaskTree::new();
    let p = tree.add_task(None, "Project", true, true).unwrap();
    let a = tree.add_task(Some(p), "Alpha", false, true).unwrap();
    let b = tree.add_task(Some(p), "Beta", false, false).unwrap();
    assert_eq!(tree.rename_task(a, "Gamma"), Ok(()));
    assert_eq!(tree.get_task(a).unwrap().name, "Gamma");
    assert_eq!(tree.rename_task(a, "Alpha"), Ok(()));
    assert_eq!(tree.get_task(a).unwrap().name, "Alpha");
    assert_eq!(tree.get_task(b).unwrap().name, "Beta");
    assert_eq!(tree.children_of(p).len(), 2);
    assert_eq!(tree.rename_task(a, "Beta"), Err(TreeError::DuplicateName));
}

#[test]
fn added_time_reaches_every_ancestor_only() {
    let mut tree = TaskTree::new();
    let root = tree.add_task(None, "Root", true, true).unwrap();
    let mid = tree.add_task(Some(root), "Mid", false, true).unwrap();
    let leaf = tree.add_task(Some(mid), "Leaf", false, true).unwrap();
    let side = tree.add_task(Some(root), "Side", false, true).unwrap();
    tree.update_duration(side, 7).unwrap();
    let before: Vec<u64> = [root, mid, leaf, side]
        .iter()
        .map(|&id| tree.cumulative_duration(id).unwrap())
        .collect();
    tree.update_duration(leaf, 30).unwrap();
    let after: Vec<u64> = [root, mid, leaf, side]
        .iter()
        .map(|&id| tree.cumulative_duration(id).unwrap())
        .collect();
    assert_eq!(after[0], before[0] + 30);
    assert_eq!(after[1], before[1] + 30);
    assert_eq!(after[2], before[2] + 30);
    assert_eq!(after[3], before[3]);
    assert_eq!(after, vec![37, 30, 30, 7]);
}

#[test]
fn ids_count_successful_additions() {
    let mut tree = TaskTree::new();
    let a = tree.add_task(None, "  A  ", true, true).unwrap();
    assert_eq!(a, 1);
    assert_eq!(tree.add_task(None, "A", true, true), Err(TreeError::DuplicateName));
    assert_eq!(tree.add_task(Some(99), "B", false, true), Err(TreeError::InvalidParent));
    assert_eq!(tree.add_task(None, "   ", false, true), Err(TreeError::DuplicateName));
    let b = tree.add_task(Some(a), "B", false, true).unwrap();
    assert_eq!(b, 2);
    tree.remove_task(b).unwrap();
    tree.rename_task(a, " Alpha ").unwrap();
    let c = tree.add_task(Some(a), "C", false, true).unwrap();
    assert_eq!(c, 3);
    for t in tree.all_tasks() {
        assert!(!t.name.is_empty());
        assert_eq!(t.name, t.name.trim());
        if let Some(p) = t.parent_id {
            assert!(tree.get_task(p).is_some());
        }
    }
    assert_eq!(tree.get_task(a).unwrap().name, "Alpha");
}

#[test]
fn descendants_are_distinct_and_sum_with_own_time() {
    let mut tree = TaskTree::new();
    let r = tree.add_task(None, "R", true, true).unwrap();
    let x = tree.add_task(Some(r), "X", false, true).unwrap();
    let y = tree.add_task(Some(x), "Y", false, true).unwrap();
    tree.update_duration(r, 5).unwrap();
    tree.update_duration(x, 7).unwrap();
    tree.update_duration(y, 11).unwrap();
    let d = tree.descendants(r);
    assert_eq!(d, vec![x, y]);
    assert!(!d.contains(&r));
    assert!(tree.descendants(y).is_empty());
    let own = tree.get_task(r).unwrap().total_duration_secs;
    let below: u64 = d.iter().map(|id| tree.get_task(*id).unwrap().total_duration_secs).sum();
    assert_eq!(tree.cumulative_duration(r), Ok(own + below));
}

#[test]
fn root_paths_and_removal_agree_with_descendants() {
    let mut tree = TaskTree::new();
    let a = tree.add_task(None, "A", true, true).unwrap();
    let b = tree.add_task(Some(a), "B", false, true).unwrap();
    let c = tree.add_task(Some(b), "C", false, true).unwrap();
    let d = tree.add_task(Some(a), "D", false, true).unwrap();
    let e = tree.add_task(None, "E", true, true).unwrap();
    let path = tree.path_to_root(c);
    assert_eq!(path, vec![c, b, a]);
    let gone = tree.descendants(b);
    assert_eq!(gone, vec![c]);
    tree.remove_task(b).unwrap();
    let left: Vec<i64> = tree.all_tasks().iter().map(|t| t.id).collect();
    assert_eq!(left, vec![a, d, e]);
}
