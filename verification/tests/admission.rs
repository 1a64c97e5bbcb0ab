use codex_mbtx_contract::admission::{admit_run, check_command, evicted_job, request_cwd, unresolved_jobs};

#[test]
fn four_unresolved_jobs_refuse_a_run() {
    assert_eq!(unresolved_jobs(&vec![true, false, false]), 2);
    assert!(admit_run(&vec![false, false, false, true]).is_ok());
    assert_eq!(
        admit_run(&vec![false, false, false, false]).unwrap_err(),
        "MBTX has four unresolved jobs; poll or stop them before starting another"
    );
}

#[test]
fn runner_command_must_be_absolute_and_nul_free() {
    assert_eq!(
        check_command(&None).unwrap_err(),
        "MBTX is disabled; configure mbtx_command in user config"
    );
    let refused = "mbtx_command must start with an absolute executable path and contain no NUL";
    assert_eq!(check_command(&Some(vec![])).unwrap_err(), refused);
    assert_eq!(check_command(&Some(vec!["mbtx".into()])).unwrap_err(), refused);
    assert_eq!(check_command(&Some(vec!["/bin/mbtx".into(), "a\0b".into()])).unwrap_err(), refused);
    assert!(check_command(&Some(vec!["/bin/mbtx".into(), "--flag".into()])).is_ok());
}

#[test]
fn blank_working_directory_is_refused() {
    assert_eq!(request_cwd(None), Ok(None));
    assert_eq!(request_cwd(Some("sub")), Ok(Some("sub")));
    assert_eq!(request_cwd(Some(" \t")).unwrap_err(), "cwd must not be empty");
}

#[test]
fn a_full_registry_drops_its_first_finished_job() {
    let mut finished = vec![false; 32];
    assert_eq!(evicted_job(&finished), None);
    finished[5] = true;
    finished[9] = true;
    assert_eq!(evicted_job(&finished), Some(5));
    assert_eq!(evicted_job(&vec![true; 31]), None);
}
