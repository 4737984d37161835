use secure_crypt::processes::{check_program, configured_program, is_blank, stop_outcome};

#[test]
fn blank_program_is_refused() {
    assert_eq!(check_program("").err().unwrap(), "Application executable cannot be empty");
    assert_eq!(check_program(" \t\n\u{3000}").err().unwrap(), "Application executable cannot be empty");
    assert!(check_program(" /usr/bin/app ").is_ok());
}

#[test]
fn blank_is_all_white_space() {
    assert!(is_blank("\u{2028}\u{a0} "));
    assert!(!is_blank(" x "));
}

#[test]
fn stop_outcome_lists_every_error() {
    assert!(stop_outcome(&vec![]).is_ok());
    assert_eq!(
        stop_outcome(&vec!["no such process".to_string(), "permission denied".to_string()])
            .err()
            .unwrap(),
        "Some external application processes could not be stopped: no such process; permission denied"
    );
}

#[test]
fn missing_program_is_reported() {
    assert_eq!(
        configured_program(None).err().unwrap(),
        "External application executable is not configured"
    );
    assert_eq!(configured_program(Some("app".to_string())).unwrap(), "app");
}
