use compiler_judge::cursor::Cursor;
use compiler_judge::job::{judge, Job, JobAction, JobEvent, Phase, UserOutputSource, NON_ZERO_EXIT};
use compiler_judge::status::{
    JobStatus, COLOR_BOLD, COLOR_CYAN, COLOR_GREEN, COLOR_MAGENTA, COLOR_RED, COLOR_RESET,
};

fn stdout_job(name: &str, command: &str, expected: Option<&str>) -> Job {
    Job::new(
        String::from(name),
        String::from(command),
        String::new(),
        expected.map(String::from),
        UserOutputSource::Stdout,
    )
}

fn file_job(name: &str, command: &str, expected: Option<&str>, path: &str) -> Job {
    Job::new(
        String::from(name),
        String::from(command),
        String::from("input"),
        expected.map(String::from),
        UserOutputSource::Filename(String::from(path)),
    )
}

fn exited(success: bool, stdout: &str) -> JobEvent {
    JobEvent::Exited { success, stdout: String::from(stdout) }
}

/// Runs a job that writes to its standard output to its end.
fn run_to_end(job: &mut Job, cursor: &mut Cursor, event: JobEvent) -> JobStatus {
    let mut out = String::new();
    job.step(JobEvent::Admitted, cursor, &mut out);
    assert_eq!(job.step(event, cursor, &mut out), JobAction::Release);
    job.status().clone()
}

#[test]
fn echo_world_is_accepted() {
    let mut cursor = Cursor::new();
    let mut job = stdout_job("a", "echo world", Some("world"));
    let mut out = String::new();
    let act = job.step(JobEvent::Admitted, &mut cursor, &mut out);
    assert_eq!(
        act,
        JobAction::Launch {
            argv: vec![String::from("echo"), String::from("world")],
            input: String::new()
        }
    );
    assert_eq!(job.step(exited(true, "world\n"), &mut cursor, &mut out), JobAction::Release);
    assert_eq!(*job.status(), JobStatus::Accepted);
    assert_eq!(job.phase(), Phase::Finished);
}

#[test]
fn sleep_past_the_timeout_is_time_limit_exceeded() {
    let mut cursor = Cursor::new();
    let mut job = stdout_job("b", "sleep 3", Some("done"));
    let mut out = String::new();
    let act = job.step(JobEvent::Admitted, &mut cursor, &mut out);
    assert_eq!(
        act,
        JobAction::Launch {
            argv: vec![String::from("sleep"), String::from("3")],
            input: String::new()
        }
    );
    assert_eq!(job.step(JobEvent::TimedOut, &mut cursor, &mut out), JobAction::Release);
    assert_eq!(*job.status(), JobStatus::TimeLimitExceeded);
}

#[test]
fn exit_code_one_is_a_runtime_error() {
    let mut cursor = Cursor::new();
    let mut job = stdout_job("c", "false", Some(""));
    let status = run_to_end(&mut job, &mut cursor, exited(false, ""));
    assert_eq!(status, JobStatus::RuntimeError(String::from("Process exited with non-zero code")));
    assert_eq!(NON_ZERO_EXIT, "Process exited with non-zero code");
}

#[test]
fn goodbye_for_hello_is_a_wrong_answer() {
    let mut cursor = Cursor::new();
    let mut job = stdout_job("d", "echo goodbye", Some("hello"));
    let status = run_to_end(&mut job, &mut cursor, exited(true, "goodbye"));
    assert_eq!(status, JobStatus::WrongAnswer(String::from("hello"), String::from("goodbye")));
}

#[test]
fn no_expected_output_gives_manual() {
    let mut cursor = Cursor::new();
    let mut job = stdout_job("m", "date", None);
    let status = run_to_end(&mut job, &mut cursor, exited(true, "  Mon 1 Jan \n"));
    assert_eq!(status, JobStatus::Manual(String::from("Mon 1 Jan")));
    let mut job = file_job("mf", "gen", None, "out.txt");
    let mut out = String::new();
    job.step(JobEvent::Admitted, &mut cursor, &mut out);
    job.step(exited(true, "ignored"), &mut cursor, &mut out);
    job.step(JobEvent::FileRead(Some(String::from("\nfrom file\n"))), &mut cursor, &mut out);
    assert_eq!(*job.status(), JobStatus::Manual(String::from("from file")));
}

#[test]
fn no_expected_output_is_never_accepted() {
    assert_eq!(judge(&None, ""), JobStatus::Manual(String::new()));
    assert_eq!(judge(&None, "anything"), JobStatus::Manual(String::from("anything")));
    let mut cursor = Cursor::new();
    let mut job = stdout_job("t", "sleep 9", None);
    assert_eq!(run_to_end(&mut job, &mut cursor, JobEvent::TimedOut), JobStatus::TimeLimitExceeded);
    let mut job = stdout_job("r", "false", None);
    assert_eq!(
        run_to_end(&mut job, &mut cursor, exited(false, "x")),
        JobStatus::RuntimeError(String::from(NON_ZERO_EXIT))
    );
}

#[test]
fn comparison_ignores_whitespace_at_the_ends_only() {
    let expected = Some(String::from("a b\n"));
    assert_eq!(judge(&expected, "a b"), JobStatus::Accepted);
    assert_eq!(judge(&expected, "\n\t a b  \r\n"), JobStatus::Accepted);
    assert_eq!(
        judge(&expected, "a  b"),
        JobStatus::WrongAnswer(String::from("a b\n"), String::from("a  b"))
    );
    assert_eq!(
        judge(&expected, "ab"),
        JobStatus::WrongAnswer(String::from("a b\n"), String::from("ab"))
    );
    assert_eq!(
        judge(&expected, ""),
        JobStatus::WrongAnswer(String::from("a b\n"), String::new())
    );
}

#[test]
fn comparison_is_case_sensitive() {
    let expected = Some(String::from("Hello"));
    assert_eq!(judge(&expected, "Hello"), JobStatus::Accepted);
    assert_eq!(
        judge(&expected, "hello"),
        JobStatus::WrongAnswer(String::from("Hello"), String::from("hello"))
    );
}

#[test]
fn wrong_answer_keeps_the_expected_text_as_given() {
    let expected = Some(String::from("  hello \n"));
    assert_eq!(
        judge(&expected, " goodbye \n"),
        JobStatus::WrongAnswer(String::from("  hello \n"), String::from("goodbye"))
    );
    assert_eq!(judge(&Some(String::from(" \n")), "\t"), JobStatus::Accepted);
}

#[test]
fn timeout_holds_whatever_is_reported_later() {
    let mut cursor = Cursor::new();
    let mut job = stdout_job("late", "slow", Some("ok"));
    let mut out = String::new();
    job.step(JobEvent::Admitted, &mut cursor, &mut out);
    job.step(JobEvent::TimedOut, &mut cursor, &mut out);
    let mut out = String::new();
    assert_eq!(job.step(exited(true, "ok"), &mut cursor, &mut out), JobAction::Nothing);
    assert_eq!(job.step(exited(false, ""), &mut cursor, &mut out), JobAction::Nothing);
    assert_eq!(job.step(JobEvent::FileRead(None), &mut cursor, &mut out), JobAction::Nothing);
    assert_eq!(job.step(JobEvent::Admitted, &mut cursor, &mut out), JobAction::Nothing);
    assert_eq!(job.step(JobEvent::TimedOut, &mut cursor, &mut out), JobAction::Nothing);
    assert_eq!(*job.status(), JobStatus::TimeLimitExceeded);
    assert_eq!(out, "");
    assert_eq!(cursor.line_count(), 2);
}

#[test]
fn missing_output_file_is_a_wrong_answer() {
    let mut cursor = Cursor::new();
    let mut job = file_job("f", "gen --out result.txt", Some("42\n"), "result.txt");
    let mut out = String::new();
    let act = job.step(JobEvent::Admitted, &mut cursor, &mut out);
    assert_eq!(
        act,
        JobAction::Launch {
            argv: vec![String::from("gen"), String::from("--out"), String::from("result.txt")],
            input: String::from("input")
        }
    );
    let mut out = String::new();
    let act = job.step(exited(true, "42"), &mut cursor, &mut out);
    assert_eq!(act, JobAction::ReadFile { path: String::from("result.txt") });
    assert_eq!(job.phase(), Phase::Collecting);
    assert_eq!(*job.status(), JobStatus::Tbd);
    assert_eq!(out, "");
    assert_eq!(job.step(JobEvent::FileRead(None), &mut cursor, &mut out), JobAction::Release);
    assert_eq!(*job.status(), JobStatus::WrongAnswer(String::from("42\n"), String::new()));
}

#[test]
fn missing_output_file_without_expected_output_is_a_wrong_answer_too() {
    let mut cursor = Cursor::new();
    let mut job = file_job("f", "gen", None, "nowhere");
    let mut out = String::new();
    job.step(JobEvent::Admitted, &mut cursor, &mut out);
    job.step(exited(true, ""), &mut cursor, &mut out);
    job.step(JobEvent::FileRead(None), &mut cursor, &mut out);
    assert_eq!(*job.status(), JobStatus::WrongAnswer(String::new(), String::new()));
}

#[test]
fn output_file_is_judged_in_place_of_stdout() {
    let mut cursor = Cursor::new();
    let mut job = file_job("f", "gen", Some("right"), "o");
    let mut out = String::new();
    job.step(JobEvent::Admitted, &mut cursor, &mut out);
    job.step(exited(true, "wrong"), &mut cursor, &mut out);
    job.step(JobEvent::FileRead(Some(String::from("right\n"))), &mut cursor, &mut out);
    assert_eq!(*job.status(), JobStatus::Accepted);
    let mut job = file_job("g", "gen", Some("right"), "o");
    job.step(JobEvent::Admitted, &mut cursor, &mut out);
    job.step(exited(true, "right"), &mut cursor, &mut out);
    job.step(JobEvent::FileRead(Some(String::from("left"))), &mut cursor, &mut out);
    assert_eq!(*job.status(), JobStatus::WrongAnswer(String::from("right"), String::from("left")));
}

#[test]
fn failure_with_an_output_file_reads_no_file() {
    let mut cursor = Cursor::new();
    let mut job = file_job("f", "gen", Some("x"), "o");
    let mut out = String::new();
    job.step(JobEvent::Admitted, &mut cursor, &mut out);
    assert_eq!(job.step(exited(false, "x"), &mut cursor, &mut out), JobAction::Release);
    assert_eq!(*job.status(), JobStatus::RuntimeError(String::from(NON_ZERO_EXIT)));
}

#[test]
fn events_out_of_turn_change_nothing() {
    let mut cursor = Cursor::new();
    let mut job = stdout_job("q", "echo", Some(""));
    let mut out = String::new();
    assert_eq!(job.step(JobEvent::TimedOut, &mut cursor, &mut out), JobAction::Nothing);
    assert_eq!(job.step(exited(true, ""), &mut cursor, &mut out), JobAction::Nothing);
    assert_eq!(job.step(JobEvent::FileRead(None), &mut cursor, &mut out), JobAction::Nothing);
    assert_eq!(job.phase(), Phase::Queued);
    assert_eq!(*job.status(), JobStatus::Tbd);
    assert_eq!(out, "");
    assert_eq!(cursor.line_count(), 1);
    job.step(JobEvent::Admitted, &mut cursor, &mut out);
    let mut out = String::new();
    assert_eq!(job.step(JobEvent::Admitted, &mut cursor, &mut out), JobAction::Nothing);
    assert_eq!(job.step(JobEvent::FileRead(None), &mut cursor, &mut out), JobAction::Nothing);
    assert_eq!(job.phase(), Phase::Running);
    assert_eq!(out, "");
    assert_eq!(cursor.line_count(), 2);
}

#[test]
fn new_job_waits() {
    let job = stdout_job("n", "true", None);
    assert_eq!(job.name(), "n");
    assert_eq!(job.phase(), Phase::Queued);
    assert_eq!(*job.status(), JobStatus::Tbd);
    assert_eq!(job.cursor_pos(), 0);
    assert!(!job.status().is_terminal());
}

#[test]
fn a_command_of_whitespace_alone_has_no_program() {
    let mut cursor = Cursor::new();
    let mut job = stdout_job("e", "  \t ", None);
    let mut out = String::new();
    assert_eq!(
        job.step(JobEvent::Admitted, &mut cursor, &mut out),
        JobAction::Launch { argv: Vec::new(), input: String::new() }
    );
}

#[test]
fn admission_allocates_a_row_and_shows_pending() {
    let mut cursor = Cursor::new();
    let mut first = stdout_job("first", "a", Some("1"));
    let mut second = stdout_job("second", "b", Some("2"));
    let mut out = String::new();
    first.step(JobEvent::Admitted, &mut cursor, &mut out);
    assert_eq!(out, "\n\r\x1b[0KTest: first    [ .. ]");
    assert_eq!(first.cursor_pos(), 1);
    let mut out = String::new();
    second.step(JobEvent::Admitted, &mut cursor, &mut out);
    assert_eq!(out, "\n\r\x1b[0KTest: second    [ .. ]");
    assert_eq!(second.cursor_pos(), 2);
    assert_eq!(cursor.position(), 2);
    assert_eq!(cursor.line_count(), 3);
}

#[test]
fn outcome_is_shown_on_the_jobs_own_row() {
    let mut cursor = Cursor::new();
    let mut first = stdout_job("first", "a", Some("1"));
    let mut second = stdout_job("second", "b", Some("2"));
    let mut third = stdout_job("third", "c", None);
    let mut out = String::new();
    first.step(JobEvent::Admitted, &mut cursor, &mut out);
    second.step(JobEvent::Admitted, &mut cursor, &mut out);
    third.step(JobEvent::Admitted, &mut cursor, &mut out);
    let mut out = String::new();
    first.step(exited(true, "1"), &mut cursor, &mut out);
    assert_eq!(out, "\x1b[2F\r\x1b[0KTest: first    [ \x1b[1m\x1b[32mAC\x1b[0m ]");
    let mut out = String::new();
    third.step(exited(true, "3"), &mut cursor, &mut out);
    assert_eq!(out, "\x1b[2E\r\x1b[0KTest: third    [ \x1b[1mMN\x1b[0m ]");
    let mut out = String::new();
    second.step(exited(true, "3"), &mut cursor, &mut out);
    assert_eq!(out, "\x1b[1F\r\x1b[0KTest: second    [ \x1b[1m\x1b[31mWA\x1b[0m ]");
    assert_eq!(cursor.position(), 2);
    assert_eq!(cursor.line_count(), 4);
}

#[test]
fn update_state_rewrites_the_status_line() {
    let mut cursor = Cursor::new();
    let mut job = stdout_job("again", "a", Some("1"));
    let mut out = String::new();
    job.step(JobEvent::Admitted, &mut cursor, &mut out);
    cursor.new_line(&mut out);
    let mut out = String::new();
    job.update_state(&mut cursor, &mut out);
    assert_eq!(out, "\x1b[1F\r\x1b[0KTest: again    [ .. ]");
    assert_eq!(cursor.position(), 1);
}

#[test]
fn labels_have_their_colours() {
    assert_eq!(JobStatus::Tbd.label(), "..");
    assert_eq!(JobStatus::Accepted.label(), "\x1b[1m\x1b[32mAC\x1b[0m");
    assert_eq!(
        JobStatus::WrongAnswer(String::new(), String::new()).label(),
        "\x1b[1m\x1b[31mWA\x1b[0m"
    );
    assert_eq!(JobStatus::TimeLimitExceeded.label(), "\x1b[1m\x1b[35mTL\x1b[0m");
    assert_eq!(JobStatus::RuntimeError(String::new()).label(), "\x1b[1m\x1b[36mRE\x1b[0m");
    assert_eq!(JobStatus::Manual(String::new()).label(), "\x1b[1mMN\x1b[0m");
    assert_eq!(
        format!("{}{}{}{}{}{}", COLOR_BOLD, COLOR_GREEN, COLOR_RED, COLOR_MAGENTA, COLOR_CYAN, COLOR_RESET),
        "\x1b[1m\x1b[32m\x1b[31m\x1b[35m\x1b[36m\x1b[0m"
    );
}

#[test]
fn status_line_names_the_job() {
    assert_eq!(JobStatus::Tbd.line("sum"), "Test: sum    [ .. ]");
    assert_eq!(
        JobStatus::TimeLimitExceeded.line("loop forever"),
        "Test: loop forever    [ \x1b[1m\x1b[35mTL\x1b[0m ]"
    );
}

#[test]
fn only_tbd_is_not_terminal() {
    assert!(!JobStatus::Tbd.is_terminal());
    assert!(JobStatus::Accepted.is_terminal());
    assert!(JobStatus::WrongAnswer(String::new(), String::new()).is_terminal());
    assert!(JobStatus::TimeLimitExceeded.is_terminal());
    assert!(JobStatus::RuntimeError(String::new()).is_terminal());
    assert!(JobStatus::Manual(String::new()).is_terminal());
}
