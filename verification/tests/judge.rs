use compiler_judge::job::{Job, JobAction, JobEvent, Phase, UserOutputSource};
use compiler_judge::judge::Judge;
use compiler_judge::status::JobStatus;
use compiler_judge::summary::tally;

fn job_named(name: &str, expected: Option<&str>) -> Job {
    Job::new(
        String::from(name),
        format!("run {}", name),
        String::from("in"),
        expected.map(String::from),
        UserOutputSource::Stdout,
    )
}

fn printed(stdout: &str) -> JobEvent {
    JobEvent::Exited { success: true, stdout: String::from(stdout) }
}

fn launch_of(name: &str) -> JobAction {
    JobAction::Launch {
        argv: vec![String::from("run"), String::from(name)],
        input: String::from("in"),
    }
}

#[test]
fn judge_of_no_jobs_is_finished() {
    let mut judge = Judge::new(4);
    assert_eq!(judge.len(), 0);
    assert!(judge.is_finished());
    assert_eq!(judge.permits_held(), 0);
    let mut out = String::new();
    assert_eq!(judge.start_next(&mut out), None);
    assert_eq!(judge.report(0, JobEvent::TimedOut, &mut out), JobAction::Nothing);
    assert_eq!(out, "");
    let jobs = judge.finish(2, &mut out);
    assert!(jobs.is_empty());
    assert_eq!(out, "\n\nSummary:\n\n");
}

#[test]
fn submit_numbers_the_jobs() {
    let mut judge = Judge::new(2);
    assert_eq!(judge.submit(job_named("a", None)), 0);
    assert_eq!(judge.submit(job_named("b", None)), 1);
    assert_eq!(judge.submit(job_named("c", None)), 2);
    assert_eq!(judge.len(), 3);
    assert!(!judge.is_finished());
    assert_eq!(judge.jobs()[1].name(), "b");
    assert_eq!(judge.jobs()[2].phase(), Phase::Queued);
}

#[test]
fn start_next_admits_in_order_up_to_the_capacity() {
    let mut judge = Judge::new(2);
    judge.submit(job_named("a", Some("1")));
    judge.submit(job_named("b", Some("2")));
    judge.submit(job_named("c", Some("3")));
    let mut out = String::new();
    assert_eq!(judge.start_next(&mut out), Some((0, launch_of("a"))));
    assert_eq!(out, "\n\r\x1b[0KTest: a    [ .. ]");
    let mut out = String::new();
    assert_eq!(judge.start_next(&mut out), Some((1, launch_of("b"))));
    assert_eq!(out, "\n\r\x1b[0KTest: b    [ .. ]");
    let mut out = String::new();
    assert_eq!(judge.start_next(&mut out), None);
    assert_eq!(out, "");
    assert_eq!(judge.permits_held(), 2);
    assert_eq!(judge.jobs()[0].cursor_pos(), 1);
    assert_eq!(judge.jobs()[1].cursor_pos(), 2);
    assert_eq!(judge.jobs()[2].phase(), Phase::Queued);
}

#[test]
fn report_sets_the_outcome_and_frees_the_permit() {
    let mut judge = Judge::new(1);
    judge.submit(job_named("a", Some("1")));
    judge.submit(job_named("b", Some("2")));
    let mut out = String::new();
    judge.start_next(&mut out);
    assert_eq!(judge.start_next(&mut out), None);
    let mut out = String::new();
    assert_eq!(judge.report(0, printed("1\n"), &mut out), JobAction::Release);
    assert_eq!(out, "\r\x1b[0KTest: a    [ \x1b[1m\x1b[32mAC\x1b[0m ]");
    assert_eq!(judge.permits_held(), 0);
    assert_eq!(*judge.jobs()[0].status(), JobStatus::Accepted);
    let mut out = String::new();
    assert_eq!(judge.start_next(&mut out), Some((1, launch_of("b"))));
    assert_eq!(judge.permits_held(), 1);
    assert!(!judge.is_finished());
    judge.report(1, JobEvent::TimedOut, &mut out);
    assert!(judge.is_finished());
    assert_eq!(judge.permits_held(), 0);
}

#[test]
fn a_job_that_reads_its_output_file_keeps_its_permit() {
    let mut judge = Judge::new(1);
    judge.submit(Job::new(
        String::from("f"),
        String::from("gen"),
        String::new(),
        Some(String::from("x")),
        UserOutputSource::Filename(String::from("out.txt")),
    ));
    judge.submit(job_named("g", None));
    let mut out = String::new();
    judge.start_next(&mut out);
    assert_eq!(
        judge.report(0, printed(""), &mut out),
        JobAction::ReadFile { path: String::from("out.txt") }
    );
    assert_eq!(judge.permits_held(), 1);
    assert_eq!(judge.start_next(&mut out), None);
    assert_eq!(judge.report(0, JobEvent::FileRead(None), &mut out), JobAction::Release);
    assert_eq!(judge.permits_held(), 0);
    assert_eq!(
        *judge.jobs()[0].status(),
        JobStatus::WrongAnswer(String::from("x"), String::new())
    );
}

#[test]
fn reports_that_do_not_fit_change_nothing() {
    let mut judge = Judge::new(2);
    judge.submit(job_named("a", Some("1")));
    judge.submit(job_named("b", Some("2")));
    let mut out = String::new();
    assert_eq!(judge.report(0, JobEvent::Admitted, &mut out), JobAction::Nothing);
    assert_eq!(judge.report(0, printed("1"), &mut out), JobAction::Nothing);
    assert_eq!(judge.report(7, printed("1"), &mut out), JobAction::Nothing);
    assert_eq!(judge.jobs()[0].phase(), Phase::Queued);
    assert_eq!(judge.permits_held(), 0);
    assert_eq!(out, "");
    judge.start_next(&mut out);
    judge.report(0, printed("1"), &mut out);
    let mut out = String::new();
    assert_eq!(judge.report(0, printed("2"), &mut out), JobAction::Nothing);
    assert_eq!(judge.report(0, JobEvent::TimedOut, &mut out), JobAction::Nothing);
    assert_eq!(judge.report(1, JobEvent::TimedOut, &mut out), JobAction::Nothing);
    assert_eq!(*judge.jobs()[0].status(), JobStatus::Accepted);
    assert_eq!(out, "");
}

#[test]
fn judge_without_permits_starts_nothing() {
    let mut judge = Judge::new(0);
    judge.submit(job_named("a", None));
    let mut out = String::new();
    assert_eq!(judge.start_next(&mut out), None);
    assert!(!judge.is_finished());
}

#[test]
fn six_jobs_under_a_judge_of_four_permits() {
    let mut judge = Judge::new(4);
    let names = vec!["one", "two", "three", "four", "five", "six"];
    for name in names.iter() {
        judge.submit(job_named(name, Some(name)));
    }
    let mut screen = String::new();
    let mut running: Vec<usize> = Vec::new();
    let mut order: Vec<usize> = Vec::new();
    let mut most: usize = 0;
    let mut turn: usize = 0;
    while !judge.is_finished() {
        while let Some((index, act)) = judge.start_next(&mut screen) {
            assert_eq!(act, launch_of(names[index]));
            order.push(index);
            running.push(index);
        }
        assert_eq!(judge.permits_held(), running.len());
        assert!(judge.permits_held() <= 4);
        if judge.permits_held() > most {
            most = judge.permits_held();
        }
        let index = running.remove(turn % running.len());
        turn += 1;
        let event = if index % 2 == 0 { printed(names[index]) } else { JobEvent::TimedOut };
        assert_eq!(judge.report(index, event, &mut screen), JobAction::Release);
    }
    assert_eq!(order, vec![0, 1, 2, 3, 4, 5]);
    assert_eq!(most, 4);
    assert_eq!(judge.permits_held(), 0);
    let mut rows: Vec<usize> = judge.jobs().iter().map(|job| job.cursor_pos()).collect();
    assert_eq!(rows, vec![1, 2, 3, 4, 5, 6]);
    rows.dedup();
    assert_eq!(rows.len(), 6);
    for job in judge.jobs().iter() {
        assert!(job.status().is_terminal());
        assert_eq!(job.phase(), Phase::Finished);
    }
    let t = tally(judge.jobs());
    assert_eq!(t.total, 6);
    assert_eq!(t.accepted, 3);
    assert_eq!(t.time_limit_exceeded, 3);
    assert_eq!(t.accepted + t.time_limit_exceeded + t.runtime_error + t.wrong_answer + t.manual, 6);
    let mut out = String::new();
    let jobs = judge.finish(2, &mut out);
    assert_eq!(jobs.len(), 6);
    let expected = String::from("\n\nSummary:\n\n")
        + "  Accepted (3/6):\n    one: passed\n    three: passed\n    five: passed\n\n"
        + "  Time Limit Exceeded (3/6):\n    two: timeout after 2s\n    four: timeout after 2s\n    six: timeout after 2s\n\n";
    assert!(out.ends_with(&expected));
}

#[test]
fn finish_goes_below_the_last_row_first() {
    let mut judge = Judge::new(3);
    judge.submit(job_named("a", Some("1")));
    judge.submit(job_named("b", Some("2")));
    judge.submit(job_named("c", None));
    let mut out = String::new();
    while judge.start_next(&mut out).is_some() {}
    judge.report(2, printed("seen"), &mut out);
    judge.report(1, printed("2"), &mut out);
    judge.report(0, printed("0"), &mut out);
    assert!(judge.is_finished());
    let mut out = String::new();
    judge.finish(5, &mut out);
    let expected = String::from("\x1b[2E\n\nSummary:\n\n")
        + "  Accepted (1/3):\n    b: passed\n\n"
        + "  Wrong Answer (1/3):\n    a: expected \"1\", found \"0\"\n\n"
        + "  Manual Check (1/3):\n    c: result is \"seen\"\n";
    assert_eq!(out, expected);
}
