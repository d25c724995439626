use ade_core::introspect::{
    children_arguments, cwd_arguments, cwd_from_query, get_foreground_pid, query_target,
    ProcessOutput, QueryError,
};

fn output(success: bool, stdout: &str) -> ProcessOutput {
    ProcessOutput { success, stdout: stdout.to_string() }
}

#[test]
fn children_query_names_the_parent() {
    assert_eq!(children_arguments(4242), vec!["-P".to_string(), "4242".to_string()]);
    assert_eq!(children_arguments(0), vec!["-P".to_string(), "0".to_string()]);
}

#[test]
fn cwd_query_asks_for_the_cwd_field_of_one_process() {
    let expected: Vec<String> =
        ["-a", "-d", "cwd", "-p", "4294967295", "-Fn"].iter().map(|s| s.to_string()).collect();
    assert_eq!(cwd_arguments(u32::MAX), expected);
}

#[test]
fn foreground_is_the_child_listed_last() {
    assert_eq!(get_foreground_pid(Some(&output(true, "100\n200\n300\n"))), Some(300));
    assert_eq!(get_foreground_pid(Some(&output(true, "100"))), Some(100));
    assert_eq!(get_foreground_pid(Some(&output(true, "  77 \r\n"))), Some(77));
}

#[test]
fn lines_that_are_no_pid_are_passed_over() {
    assert_eq!(get_foreground_pid(Some(&output(true, "12\nnot a pid\n\n"))), Some(12));
    assert_eq!(get_foreground_pid(Some(&output(true, "12\n-5\n99999999999\n"))), Some(12));
    assert_eq!(get_foreground_pid(Some(&output(true, "+8\n"))), Some(8));
}

#[test]
fn no_foreground_without_a_usable_listing() {
    assert_eq!(get_foreground_pid(None), None);
    assert_eq!(get_foreground_pid(Some(&output(false, "100\n"))), None);
    assert_eq!(get_foreground_pid(Some(&output(true, ""))), None);
    assert_eq!(get_foreground_pid(Some(&output(true, "pgrep: error\n"))), None);
}

#[test]
fn target_falls_back_to_the_shell() {
    assert_eq!(query_target(10, Some(&output(true, "20\n30\n"))), 30);
    assert_eq!(query_target(10, Some(&output(true, ""))), 10);
    assert_eq!(query_target(10, Some(&output(false, "20\n"))), 10);
    assert_eq!(query_target(10, None), 10);
}

#[test]
fn cwd_is_read_from_the_name_field() {
    let answer = cwd_from_query(Ok(output(true, "p4242\nfcwd\nn/home/ada/project\n")));
    assert_eq!(answer, Ok("/home/ada/project".to_string()));
}

#[test]
fn cwd_is_the_first_name_field() {
    let answer = cwd_from_query(Ok(output(true, "n/first\nn/second\n")));
    assert_eq!(answer, Ok("/first".to_string()));
    let answer = cwd_from_query(Ok(output(true, "p77\r\nn/with space/é\r\n")));
    assert_eq!(answer, Ok("/with space/é".to_string()));
    assert_eq!(cwd_from_query(Ok(output(true, "n"))), Ok(String::new()));
}

#[test]
fn query_that_could_not_run_is_an_error() {
    let answer = cwd_from_query(Err("No such file or directory".to_string()));
    assert_eq!(
        answer,
        Err(QueryError::QueryFailed { detail: "No such file or directory".to_string() })
    );
}

#[test]
fn query_that_reports_failure_is_an_error() {
    assert_eq!(cwd_from_query(Ok(output(false, "n/tmp\n"))), Err(QueryError::QueryRejected));
}

#[test]
fn output_without_name_field_is_an_error() {
    assert_eq!(cwd_from_query(Ok(output(true, "p4242\nfcwd\n"))), Err(QueryError::NoCwd));
    assert_eq!(cwd_from_query(Ok(output(true, ""))), Err(QueryError::NoCwd));
    assert_eq!(cwd_from_query(Ok(output(true, " n/tmp\n"))), Err(QueryError::NoCwd));
}

#[test]
fn query_errors_read_as_messages() {
    assert_eq!(QueryError::NotFound.message(), "PTY not found");
    assert_eq!(QueryError::NoPid.message(), "No PID");
    assert_eq!(
        QueryError::QueryFailed { detail: "denied".to_string() }.message(),
        "lsof failed: denied"
    );
    assert_eq!(QueryError::QueryRejected.message(), "lsof returned error");
    assert_eq!(QueryError::NoCwd.message(), "CWD not found in lsof output");
}
