use whitesmith::aliases::{restore_path, Aliases, AliasError};
use whitesmith::commands::generate_command;
use whitesmith::engine::{first_unresolvable_job, Engine, Job};
use std::path::PathBuf;
use whitesmith::runner::{classify_exit, effective_timeout};
use whitesmith::status::{ComputationResult, Outcome, RunStatus};
use whitesmith::summary::render_summary_line;

/// A two-job matrix over one command template: job A binds X to 1, job B
/// binds X to 2, no timeout. Both commands resolve through their alias
/// tables, both jobs succeed, and the summary carries one row per job
/// whose identifier column matches its job.
#[test]
fn two_job_matrix_echo_campaign() {
    let template = "{CMD} --x {X}";

    let mut aliases_a = Aliases::new();
    aliases_a.insert("CMD", "echo");
    aliases_a.insert("X", "1");
    let command_a = generate_command(template, &aliases_a).unwrap();
    assert_eq!(command_a.executable, "echo");
    assert_eq!(command_a.args, vec![String::from("--x"), String::from("1")]);

    let mut aliases_b = Aliases::new();
    aliases_b.insert("CMD", "echo");
    aliases_b.insert("X", "2");
    let command_b = generate_command(template, &aliases_b).unwrap();
    assert_eq!(command_b.args, vec![String::from("--x"), String::from("2")]);

    let jobs = vec![
        Job { id: String::from("A"), command: String::from(template), timeout_millis: None },
        Job { id: String::from("B"), command: String::from(template), timeout_millis: None },
    ];
    assert_eq!(effective_timeout(jobs[0].timeout_millis, None), None);

    let mut engine = Engine::new(jobs.len());
    let mut lines = Vec::new();
    while let Some(index) = engine.claim(false) {
        // Both echo invocations exit cleanly.
        let result = classify_exit(true, 3 + index as u64);
        engine.complete(index, result);
        lines.push(render_summary_line(&jobs[index].id, result));
    }

    assert_eq!(engine.row_count(), 2);
    for j in 0..2 {
        assert!(matches!(engine.read(j), RunStatus::Done(Outcome::Success { .. })));
    }
    assert_eq!(lines, vec![String::from("A\tOk\t3"), String::from("B\tOk\t4")]);
}

/// A configuration error surfaces before any job is scheduled: the
/// pre-flight pass reports the first job whose command cannot resolve.
#[test]
fn preflight_reports_the_first_unresolvable_job() {
    let mut aliases = Aliases::new();
    aliases.insert("CMD", "echo");
    aliases.insert("LOOP", "{LOOP}x");
    let jobs = vec![
        Job { id: String::from("good"), command: String::from("{CMD} 1"), timeout_millis: None },
        Job { id: String::from("bad"), command: String::from("{LOOP}"), timeout_millis: None },
        Job { id: String::from("alsobad"), command: String::from("{LOOP}"), timeout_millis: None },
    ];
    assert_eq!(first_unresolvable_job(&jobs, &aliases), Some(1));
    let fine = vec![jobs[0].clone()];
    assert_eq!(first_unresolvable_job(&fine, &aliases), None);
}

/// A cyclic definition reaches `restore_path` as the same error
/// `restore_str` reports; a resolvable Unicode path always succeeds.
#[test]
fn restore_path_reports_cycles() {
    let mut aliases = Aliases::new();
    aliases.insert("A", "{B}");
    aliases.insert("B", "{A}");
    let p = PathBuf::from("{A}/logs");
    assert_eq!(restore_path(&p, &aliases), Err(AliasError::Cyclic));
    let plain = PathBuf::from("plain/logs");
    assert_eq!(restore_path(&plain, &aliases), Ok(PathBuf::from("plain/logs")));
}

/// A job whose process outlives its one-second bound: the wait reports no
/// exit, the job is classified `Timeout` carrying the bound, and its
/// persisted status is `TimedOut`.
#[test]
fn sleepy_job_times_out_with_the_bound() {
    let mut engine = Engine::new(1);
    let index = engine.claim(false).unwrap();
    let result = ComputationResult::Timeout(1000);
    engine.complete(index, result);
    assert_eq!(engine.read(0), RunStatus::TimedOut);
    assert_eq!(render_summary_line("sleepy", result), "sleepy\tTimeout\t1000");
}
