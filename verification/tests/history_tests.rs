use lord_of_the_files::paths::dir_of_path;
use lord_of_the_files::history::{
    after_commits, after_staging, apply_report, dry_run, move_report,
    operation_summary, rename_moves, stage_plan, temp_name, undo_moves, undone_rows, CheckStatus,
    CommitOutcome, Failure, RenameItem,
};

fn pair(a: &str, b: &str) -> (String, String) {
    (a.to_string(), b.to_string())
}

#[test]
fn rename_moves_stay_in_the_same_directory() {
    let items = vec![
        RenameItem { old_path: "/d/a.txt".to_string(), new_name: "b.txt".to_string() },
        RenameItem { old_path: "c.txt".to_string(), new_name: "d.txt".to_string() },
    ];
    let moves = rename_moves(&items);
    assert_eq!(moves, vec![pair("/d/a.txt", "/d/b.txt"), pair("c.txt", "d.txt")]);
    assert_eq!(dir_of_path("/"), ".");
}

#[test]
fn undo_reverses_order_and_direction() {
    let pairs = vec![pair("/d/a", "/d/b"), pair("/d/c", "/d/d")];
    let undo = undo_moves(&pairs);
    assert_eq!(undo, vec![pair("/d/d", "/d/c"), pair("/d/b", "/d/a")]);
    assert_eq!(undo_moves(&undo), pairs);
    assert_eq!(undone_rows(&undo), vec![pair("/d/c", "/d/d"), pair("/d/a", "/d/b")]);
}

#[test]
fn stage_plan_skips_moves_in_place() {
    let moves = vec![pair("/d/a", "/d/a"), pair("/d/b", "/d/c")];
    assert_eq!(stage_plan(&moves), vec![pair("/d/b", "/d/c")]);
}

#[test]
fn temp_names_are_hidden_next_to_the_target() {
    assert_eq!(temp_name("/d/b.txt", "abc"), "/d/.abc.lotf.tmp");
}

#[test]
fn two_phase_accounts_for_every_move() {
    let plan = vec![pair("/d/a", "/d/b"), pair("/d/b", "/d/a"), pair("/d/x", "/d/y"), pair("/d/p", "/d/q")];
    let results = vec![
        Ok("/d/.1.lotf.tmp".to_string()),
        Ok("/d/.2.lotf.tmp".to_string()),
        Err("permission denied".to_string()),
        Ok("/d/.3.lotf.tmp".to_string()),
    ];
    let (staged, failures) = after_staging(plan, results);
    assert_eq!(staged.len(), 3);
    assert_eq!(failures.len(), 1);
    assert_eq!(failures[0].path, "/d/x");
    assert_eq!(staged[1].temp, "/d/.2.lotf.tmp");
    assert_eq!(staged[1].to, "/d/a");
    assert_eq!(staged[1].from, "/d/b");
    let outcomes = vec![CommitOutcome::Committed, CommitOutcome::Committed, CommitOutcome::DestExisted];
    let (done, failures) = after_commits(staged, outcomes, failures);
    assert_eq!(done, vec![pair("/d/a", "/d/b"), pair("/d/b", "/d/a")]);
    assert_eq!(failures.len(), 2);
    assert_eq!(failures[0].error, "permission denied");
    assert_eq!(failures[1].path, "/d/p");
    assert_eq!(failures[1].error, "Destination already exists: /d/q");
}

#[test]
fn failed_commit_keeps_its_error() {
    let (staged, failures) = after_staging(vec![pair("/d/a", "/d/b")], vec![Ok("/d/.t".to_string())]);
    let (done, failures) = after_commits(staged, vec![CommitOutcome::Failed("io".to_string())], failures);
    assert!(done.is_empty());
    assert_eq!(failures[0].path, "/d/a");
    assert_eq!(failures[0].error, "io");
}

#[test]
fn apply_report_records_only_when_something_moved() {
    let done = vec![pair("/d/a", "/d/b")];
    let r = apply_report(&done, Some(Ok("op-1".to_string())), Vec::new());
    assert_eq!(r.renamed, 1);
    assert_eq!(r.operation_id.as_deref(), Some("op-1"));
    assert!(r.history_error.is_none());
    let r = apply_report(&done, Some(Err("disk full".to_string())), Vec::new());
    assert!(r.operation_id.is_none());
    assert_eq!(r.history_error.as_deref(), Some("disk full"));
    let failures = vec![Failure { path: "/d/z".to_string(), error: "gone".to_string() }];
    let r = apply_report(&Vec::new(), None, failures);
    assert_eq!(r.renamed, 0);
    assert!(r.operation_id.is_none());
    assert_eq!(r.failures.len(), 1);
    let u = move_report(&done, Vec::new());
    assert_eq!(u.reverted, 1);
}

#[test]
fn operation_summary_counts_files() {
    assert_eq!(operation_summary(3), "Renamed 3 file(s)");
    assert_eq!(operation_summary(0), "Renamed 0 file(s)");
}

#[test]
fn dry_run_reports_missing_and_overwrites() {
    let moves = vec![pair("/d/a", "/d/a"), pair("/d/b", "/d/c"), pair("/d/e", "/d/f")];
    let checks = dry_run(&moves, &vec![false, false, true], &vec![true, true, true]);
    assert_eq!(checks[0].status, CheckStatus::Clear);
    assert_eq!(checks[1].status, CheckStatus::Missing);
    assert_eq!(checks[2].status, CheckStatus::WouldOverwrite);
    assert_eq!(checks[2].old_path, "/d/e");
    assert_eq!(checks[2].new_path, "/d/f");
}

#[test]
fn dry_run_swap_does_not_false_positive() {
    // Both targets exist, but each is itself a source in the batch.
    let moves = vec![pair("/d/a", "/d/b"), pair("/d/b", "/d/a")];
    let checks = dry_run(&moves, &vec![true, true], &vec![true, true]);
    assert!(checks.iter().all(|c| c.status == CheckStatus::Clear));
}
