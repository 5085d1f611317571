use post_init::batch::{check_of, confirms, files_to_edit, needs_confirmation, run_failed, FileCheck};
use post_init::manifest::{has_project_dynamic, ManifestError};

#[test]
fn already_dynamic_is_skipped() {
    let text = "[project]\nname = \"x\"\ndynamic = [\"version\", \"description\"]\n";
    let checks = vec![check_of(has_project_dynamic(text)), check_of(has_project_dynamic("[project]\nversion = \"1\"\n"))];
    assert_eq!(checks[0], FileCheck::AlreadyDynamic);
    assert_eq!(files_to_edit(&checks), vec![1]);
}

#[test]
fn failed_checks_are_not_edited() {
    let checks = vec![
        check_of(Err(ManifestError::Parse("bad".to_string()))),
        check_of(Ok(false)),
        check_of(Ok(true)),
        check_of(Ok(false)),
    ];
    assert_eq!(checks[0], FileCheck::Failed("bad".to_string()));
    assert_eq!(files_to_edit(&checks), vec![1, 3]);
    assert!(files_to_edit(&vec![]).is_empty());
}

#[test]
fn answers_that_agree() {
    assert!(confirms("y"));
    assert!(confirms("Yes"));
    assert!(!confirms("n"));
    assert!(!confirms(""));
    assert!(!confirms("ok y"));
}

#[test]
fn asking_and_failing() {
    assert!(needs_confirmation(false, 2));
    assert!(!needs_confirmation(true, 2));
    assert!(!needs_confirmation(false, 0));
    assert!(run_failed(&vec![true, false, true]));
    assert!(!run_failed(&vec![true, true]));
    assert!(!run_failed(&vec![]));
}
