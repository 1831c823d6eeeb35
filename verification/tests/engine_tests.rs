use klyradb::engine::tooling::{launch_step, require_tool, LaunchStep};
use klyradb::text::ascii_lower;
use klyradb::engine::paths::{base_dir, engines_dir, join};
use klyradb::engine::proc::{interrupt_args, parse_pid, parse_u32, proc_dir, status_from};
use klyradb::engine::tooling::{
    instance_dirs, run_outcome, run_outcome_or_stdout, signal_failure, start_outcome, stop_step,
    wait_step, CommandOutput, StopStep, WaitStep,
};
use klyradb::engine::{DbType, EngineError, Instance, Status};
use std::path::Path;

fn sample() -> Instance {
    Instance {
        id: "abc123".into(),
        name: "cache".into(),
        db_type: DbType::Redis,
        version: "7.4".into(),
        port: 6390,
        data_dir: "/base/data/abc123".into(),
        log_file: "/base/logs/abc123.log".into(),
        pid_file: "/base/pids/abc123.pid".into(),
        conf_file: "/base/conf/abc123.conf".into(),
        user: String::new(),
        status: Status::Stopped,
        created_at: "2026-06-29T00:00:00Z".into(),
        last_error: String::new(),
        upgrade_version: String::new(),
        patch_update: String::new(),
    }
}

#[test]
fn parse_round_trips_every_kind_and_rejects_unknown() {
    for db in DbType::all() {
        assert_eq!(DbType::parse(db.as_str()), Some(db));
    }
    assert_eq!(DbType::parse("oracle"), None);
    assert_eq!(DbType::parse(""), None);
}

#[test]
fn engine_error_displays_its_message_and_wraps_io() {
    assert_eq!(EngineError::Tooling("x".into()).to_string(), "x");
    assert_eq!(EngineError::NotInstalled("y".into()).to_string(), "y");
    let io = std::io::Error::other("disk");
    assert_eq!(EngineError::from(io).to_string(), "disk");
}

#[test]
fn engines_dir_is_under_base_dir() {
    let base = base_dir(None, None, Some("/home/user"));
    let engines = engines_dir(&base);
    assert!(Path::new(&engines).starts_with(&base));
    assert!(Path::new(&engines).ends_with("engines"));
}

#[test]
fn base_dir_prefers_snap_then_xdg_then_home() {
    assert_eq!(base_dir(Some("/snap/common"), Some("/xdg"), Some("/home/u")), "/snap/common");
    assert_eq!(base_dir(Some(""), Some("/xdg"), Some("/home/u")), "/xdg/klyradb");
    assert_eq!(base_dir(None, None, Some("/home/u")), "/home/u/.local/share/klyradb");
    assert_eq!(base_dir(None, Some(""), None), ".local/share/klyradb");
}

#[test]
fn join_follows_unix_path_rules() {
    assert_eq!(join("/a", "b"), "/a/b");
    assert_eq!(join("/a/", "b"), "/a/b");
    assert_eq!(join("", "b"), "b");
    assert_eq!(join("/a", "/b"), "/b");
}

#[test]
fn malformed_pidfile_yields_none() {
    assert_eq!(parse_pid("not-a-number"), None);
    assert_eq!(parse_pid(""), None);
    assert_eq!(parse_pid("   \n  "), None);
}

#[test]
fn dead_pid_is_not_reported_alive() {
    assert_eq!(parse_pid("0\n"), None);
}

#[test]
fn own_pid_reads_back_as_alive() {
    let pid: u32 = 4242;
    let text = format!("{pid}\n/some/data/dir\n");
    assert_eq!(parse_pid(&text), Some(pid));
}

#[test]
fn u32_parsing_matches_std() {
    for s in ["0", "42", "+7", "4294967295", "4294967296", "", "+", "-1", "1a", " 1", "007"] {
        assert_eq!(parse_u32(s), s.parse::<u32>().ok(), "input {s:?}");
    }
}

#[test]
fn proc_dir_and_interrupt_args_name_the_pid() {
    assert_eq!(proc_dir(1234), "/proc/1234");
    assert_eq!(interrupt_args(99), vec!["-INT".to_string(), "99".to_string()]);
}

#[test]
fn either_signal_means_running() {
    assert_eq!(status_from(true, false), Status::Running);
    assert_eq!(status_from(false, true), Status::Running);
    assert_eq!(status_from(true, true), Status::Running);
    assert_eq!(status_from(false, false), Status::Stopped);
}

#[test]
fn tool_failures_carry_the_trimmed_output() {
    let ok = CommandOutput { success: true, stdout: String::new(), stderr: "noise".into() };
    assert!(run_outcome("initdb", &ok).is_ok());
    let bad = CommandOutput { success: false, stdout: " out \n".into(), stderr: "  bad thing \n".into() };
    match run_outcome("mysql initialize", &bad) {
        Err(EngineError::Tooling(m)) => assert_eq!(m, "mysql initialize: bad thing"),
        _ => panic!("expected a tooling error"),
    }
    let quiet = CommandOutput { success: false, stdout: " from stdout \n".into(), stderr: " \n".into() };
    match run_outcome_or_stdout("pg_ctl start", &quiet) {
        Err(EngineError::Tooling(m)) => assert_eq!(m, "pg_ctl start: from stdout"),
        _ => panic!("expected a tooling error"),
    }
    match run_outcome_or_stdout("pg_ctl start", &bad) {
        Err(EngineError::Tooling(m)) => assert_eq!(m, "pg_ctl start: bad thing"),
        _ => panic!("expected a tooling error"),
    }
    match start_outcome("redis-server", &bad) {
        Err(EngineError::Tooling(m)) => assert_eq!(m, "redis-server failed to start: bad thing"),
        _ => panic!("expected a tooling error"),
    }
    assert_eq!(signal_failure("mysqld").to_string(), "failed to signal mysqld");
}

#[test]
fn waiting_for_a_port_gives_up_after_the_timeout() {
    assert!(matches!(wait_step("postgres", 5432, 15, 0, true), WaitStep::Ready));
    assert!(matches!(wait_step("postgres", 5432, 15, 14_999, false), WaitStep::Retry));
    match wait_step("postgres", 5432, 15, 15_000, false) {
        WaitStep::GiveUp(e) => assert_eq!(e.to_string(), "postgres did not open port 5432 within 15s"),
        _ => panic!("expected to give up"),
    }
}

#[test]
fn instance_dirs_skip_empty_parents() {
    let inst = sample();
    assert_eq!(
        instance_dirs(&inst),
        vec![
            "/base/data/abc123".to_string(),
            "/base/logs".to_string(),
            "/base/pids".to_string(),
            "/base/conf".to_string()
        ]
    );
    let mut bare = sample();
    bare.conf_file = String::new();
    assert_eq!(instance_dirs(&bare).len(), 3);
}

#[test]
fn stopping_tries_each_tool_then_signals() {
    assert!(matches!(stop_step(2, 0, false, None, "mongod"), StopStep::TryTool(0)));
    assert!(matches!(stop_step(2, 1, false, None, "mongod"), StopStep::TryTool(1)));
    assert!(matches!(stop_step(2, 1, true, None, "mongod"), StopStep::Done(Ok(()))));
    assert!(matches!(stop_step(2, 2, false, None, "mongod"), StopStep::Signal));
    assert!(matches!(stop_step(0, 0, false, Some(true), "mongod"), StopStep::Done(Ok(()))));
    match stop_step(2, 2, false, Some(false), "mongod") {
        StopStep::Done(Err(e)) => assert_eq!(e.to_string(), "failed to signal mongod"),
        _ => panic!("expected a signal failure"),
    }
}

#[test]
fn launching_tries_the_launcher_then_the_daemon() {
    let l = Some("/usr/bin/mysqld_safe".to_string());
    let d = Some("/usr/sbin/mysqld".to_string());
    assert!(matches!(launch_step(l.clone(), None, None, "mysqld"), LaunchStep::Spawn(ref p) if p == "/usr/bin/mysqld_safe"));
    assert!(matches!(launch_step(l.clone(), Some(true), None, "mysqld"), LaunchStep::Wait));
    assert!(matches!(launch_step(l.clone(), Some(false), d.clone(), "mysqld"), LaunchStep::RunDaemon(ref p) if p == "/usr/sbin/mysqld"));
    assert!(matches!(launch_step(None, None, d, "mysqld"), LaunchStep::RunDaemon(_)));
    match launch_step(None, None, None, "mysqld") {
        LaunchStep::Fail(e) => assert_eq!(e.to_string(), "mysqld"),
        _ => panic!("expected a failure"),
    }
}

#[test]
fn ascii_lowercasing_touches_only_ascii_capitals() {
    for c in ['A', 'Z', 'a', 'z', '0', '_', 'É', 'ß', '@', '['] {
        assert_eq!(ascii_lower(c), c.to_ascii_lowercase());
    }
}

#[test]
fn a_missing_tool_is_reported_as_not_installed() {
    assert_eq!(require_tool(Some("/usr/bin/mongod".to_string()), "mongod").unwrap(), "/usr/bin/mongod");
    match require_tool(None, "mongod not found") {
        Err(EngineError::NotInstalled(m)) => assert_eq!(m, "mongod not found"),
        _ => panic!("expected NotInstalled"),
    }
}
