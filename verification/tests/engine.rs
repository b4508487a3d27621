use std::path::PathBuf;

use treeclean::entry::{entry_action, DirRec, EntryKind};
use treeclean::errors::{is_fatal, ErrorKind};
use treeclean::plan::RemovalPlan;
use treeclean::pool::{default_pool_size, pool_size};
use treeclean::screen::CurrentScreen;

fn rec(path: &str, depth: usize) -> DirRec {
    DirRec { path: PathBuf::from(path), depth }
}

#[test]
fn action_plain_file_is_removed_now() {
    let a = entry_action(EntryKind::File, false);
    assert!(!a.clear_readonly);
    assert!(a.remove_now);
    assert!(!a.defer_dir);
}

#[test]
fn action_symlink_is_removed_now() {
    let a = entry_action(EntryKind::Symlink, false);
    assert!(!a.clear_readonly);
    assert!(a.remove_now);
    assert!(!a.defer_dir);
}

#[test]
fn action_directory_is_deferred() {
    let a = entry_action(EntryKind::Directory, false);
    assert!(!a.clear_readonly);
    assert!(!a.remove_now);
    assert!(a.defer_dir);
}

#[test]
fn action_readonly_file_cleared_then_removed() {
    // A read-only file needs no pre-clearing by the caller: one visit
    // clears the bit and removes the file.
    let a = entry_action(EntryKind::File, true);
    assert!(a.clear_readonly);
    assert!(a.remove_now);
    assert!(!a.defer_dir);
}

#[test]
fn action_readonly_directory_cleared_and_deferred() {
    let a = entry_action(EntryKind::Directory, true);
    assert!(a.clear_readonly);
    assert!(!a.remove_now);
    assert!(a.defer_dir);
}

#[test]
fn fatality_policy() {
    // A file vanishing between enumeration and removal, an unreadable
    // entry, or a stuck read-only bit each end the whole run; a failed
    // directory removal does not.
    assert!(is_fatal(ErrorKind::Enumeration));
    assert!(is_fatal(ErrorKind::PermissionChange));
    assert!(is_fatal(ErrorKind::FileRemoval));
    assert!(!is_fatal(ErrorKind::DirectoryRemoval));
}

#[test]
fn plan_groups_by_depth_deepest_first() {
    let collected = vec![
        rec("r/a", 1),
        rec("r", 0),
        rec("r/a/x", 2),
        rec("r/b", 1),
        rec("r/b/y", 2),
    ];
    let mut plan = RemovalPlan::new(collected);
    assert_eq!(plan.warnings, 0);

    let b2 = plan.next_bucket().unwrap();
    assert_eq!(b2.depth, 2);
    let paths2: Vec<&PathBuf> = b2.dirs.iter().map(|r| &r.path).collect();
    assert_eq!(paths2, vec![&PathBuf::from("r/a/x"), &PathBuf::from("r/b/y")]);

    let b1 = plan.next_bucket().unwrap();
    assert_eq!(b1.depth, 1);
    let paths1: Vec<&PathBuf> = b1.dirs.iter().map(|r| &r.path).collect();
    assert_eq!(paths1, vec![&PathBuf::from("r/a"), &PathBuf::from("r/b")]);

    let b0 = plan.next_bucket().unwrap();
    assert_eq!(b0.depth, 0);
    assert_eq!(b0.dirs.len(), 1);
    assert_eq!(b0.dirs[0].path, PathBuf::from("r"));

    assert!(plan.next_bucket().is_none());
    assert_eq!(plan.warnings, 0);
}

#[test]
fn plan_single_empty_directory() {
    // Cleaning a path that is a single empty directory schedules exactly
    // that directory and reports no warnings.
    let mut plan = RemovalPlan::new(vec![rec("lone", 0)]);
    let b = plan.next_bucket().unwrap();
    assert_eq!(b.depth, 0);
    assert_eq!(b.dirs.len(), 1);
    assert_eq!(b.dirs[0].path, PathBuf::from("lone"));
    assert!(plan.next_bucket().is_none());
    assert_eq!(plan.warnings, 0);
}

#[test]
fn plan_empty_input() {
    let mut plan = RemovalPlan::new(Vec::new());
    assert!(plan.next_bucket().is_none());
    assert_eq!(plan.warnings, 0);
}

#[test]
fn plan_failure_is_contained() {
    // One directory in a batch failing to go away must not disturb the
    // rest of the schedule: the remaining batches are still issued.
    let mut plan = RemovalPlan::new(vec![rec("r", 0), rec("r/a", 1), rec("r/b", 1)]);

    let deep = plan.next_bucket().unwrap();
    assert_eq!(deep.depth, 1);
    assert_eq!(deep.dirs.len(), 2);
    // suppose "r/a" could not be removed
    plan.record_dir_failure();
    assert_eq!(plan.warnings, 1);

    let shallow = plan.next_bucket().unwrap();
    assert_eq!(shallow.depth, 0);
    assert_eq!(shallow.dirs[0].path, PathBuf::from("r"));
    assert!(plan.next_bucket().is_none());
    assert_eq!(plan.warnings, 1);
}

#[test]
fn plan_warning_count_saturates() {
    let mut plan = RemovalPlan::new(Vec::new());
    plan.warnings = usize::MAX;
    plan.record_dir_failure();
    assert_eq!(plan.warnings, usize::MAX);
}

#[test]
fn scenario_nested_tree_with_readonly_file() {
    // Tree root/{a.txt, sub/{b.txt, sub2/}} with a.txt read-only.
    // The walking pass removes a.txt (clearing it first) and b.txt at
    // once; the directories are scheduled deepest first, so sub2 goes
    // before sub, and the root goes last of all.
    let a_txt = entry_action(EntryKind::File, true);
    assert!(a_txt.clear_readonly && a_txt.remove_now);
    let b_txt = entry_action(EntryKind::File, false);
    assert!(b_txt.remove_now);
    assert!(entry_action(EntryKind::Directory, false).defer_dir);

    let collected = vec![rec("root", 0), rec("root/sub", 1), rec("root/sub/sub2", 2)];
    let mut plan = RemovalPlan::new(collected);

    let mut issued_depths: Vec<usize> = Vec::new();
    let mut last_path: Option<PathBuf> = None;
    while let Some(bucket) = plan.next_bucket() {
        issued_depths.push(bucket.depth);
        last_path = Some(bucket.dirs.last().unwrap().path.clone());
    }
    // strictly decreasing depths: sub2 is gone before sub is attempted
    assert_eq!(issued_depths, vec![2, 1, 0]);
    // the deletion root is the last thing attempted
    assert_eq!(last_path.unwrap(), PathBuf::from("root"));
    assert_eq!(plan.warnings, 0);
}

#[test]
fn pool_size_is_oversubscribed() {
    assert_eq!(pool_size(1), 100);
    assert_eq!(pool_size(7), 700);
}

#[test]
fn pool_size_saturates() {
    assert_eq!(pool_size(usize::MAX), usize::MAX);
    assert_eq!(pool_size(usize::MAX / 100), usize::MAX / 100 * 100);
}

#[test]
fn default_pool_size_covers_at_least_one_cpu() {
    assert!(default_pool_size() >= 100);
}

#[test]
fn screen_states_are_distinct() {
    let s = CurrentScreen::ChoosePath;
    assert!(matches!(s, CurrentScreen::ChoosePath));
    assert_ne!(CurrentScreen::ConfirmPath, CurrentScreen::DeletedPath);
    assert_ne!(CurrentScreen::ChoosePath, CurrentScreen::ConfirmPath);
}
