use klyradb::engine::{DbType, Engine, EngineError, Instance, Status, Version};
use klyradb::install::{Platform, MONGODB_BLOCKED, SNAP_REFUSAL};
use klyradb::manager::{default_port, merge_versions, settle, Manager, ManagerError, PORT_SCAN_SPAN};
use klyradb::store::StoreError;
use std::sync::{Arc, Mutex};

/// An engine stub that records calls and can be told to fail on start.
struct FakeEngine {
    db: DbType,
    fail_start: bool,
    started: Arc<Mutex<Vec<String>>>,
}

impl Engine for FakeEngine {
    fn kind(&self) -> DbType {
        self.db
    }
    fn db_type(&self) -> DbType {
        self.db
    }
    fn versions(&self) -> Vec<Version> {
        vec![Version {
            db_type: self.db,
            major: "1".into(),
            bin_path: String::new(),
            installed: false,
            label: "Fake 1".into(),
            latest_patch: "1".into(),
            installed_version: String::new(),
        }]
    }
    fn create(&self, _inst: &mut Instance) -> Result<(), EngineError> {
        Ok(())
    }
    fn start(&self, inst: &Instance) -> Result<(), EngineError> {
        if self.fail_start {
            return Err(EngineError::Tooling("boom".into()));
        }
        self.started.lock().unwrap().push(inst.id.clone());
        Ok(())
    }
    fn stop(&self, _inst: &Instance) -> Result<(), EngineError> {
        Ok(())
    }
    fn delete(&self, _inst: &Instance) -> Result<(), EngineError> {
        Ok(())
    }
    fn check_status(&self, inst: &Instance) -> Status {
        inst.status
    }
}

fn free(_port: u16) -> bool {
    true
}

fn manager_with(db: DbType, fail_start: bool) -> (Manager<FakeEngine>, Arc<Mutex<Vec<String>>>) {
    let started = Arc::new(Mutex::new(Vec::new()));
    let engine = FakeEngine { db, fail_start, started: started.clone() };
    (Manager::new("/tmp/klyradb-test", vec![engine]), started)
}

fn create(m: &mut Manager<FakeEngine>, name: &str, db: DbType, version: &str, port: Option<u16>) -> Result<Instance, ManagerError> {
    m.create(name, db, version, port, &free)
}

#[test]
fn mod_create_rejects_empty_name() {
    let (mut m, _s) = manager_with(DbType::Postgres, false);
    assert!(matches!(create(&mut m, "  ", DbType::Postgres, "17", None), Err(ManagerError::Invalid(_))));
}

#[test]
fn mod_create_rejects_unknown_engine() {
    let (mut m, _s) = manager_with(DbType::Postgres, false);
    assert!(matches!(create(&mut m, "dev", DbType::Mysql, "8.4", None), Err(ManagerError::Invalid(_))));
}

#[test]
fn mod_create_lays_out_isolated_paths_and_persists() {
    let (mut m, _s) = manager_with(DbType::Postgres, false);
    let a = create(&mut m, "a", DbType::Postgres, "17", None).unwrap();
    let b = create(&mut m, "b", DbType::Postgres, "17", None).unwrap();
    assert_ne!(a.id, b.id);
    assert_ne!(a.data_dir, b.data_dir);
    assert_ne!(a.port, b.port, "two instances must not share a port");
    assert_eq!(a.status, Status::Stopped);
    assert!(m.take_dirty());
    let saved = m.snapshot();
    m.load_all(saved);
    assert_eq!(m.list().len(), 2);
}

#[test]
fn mod_requested_busy_port_is_rejected() {
    let (mut m, _s) = manager_with(DbType::Postgres, false);
    let a = create(&mut m, "a", DbType::Postgres, "17", None).unwrap();
    match create(&mut m, "b", DbType::Postgres, "17", Some(a.port)) {
        Err(ManagerError::Invalid(msg)) => assert_eq!(msg, format!("port {} is already in use", a.port)),
        _ => panic!("expected Invalid"),
    }
}

#[test]
fn mod_failed_start_records_error_status_and_message() {
    let (mut m, _s) = manager_with(DbType::Postgres, true);
    let a = create(&mut m, "a", DbType::Postgres, "17", None).unwrap();
    let err = m.start(&a.id).unwrap_err();
    assert!(matches!(err, ManagerError::Engine(_)));
    let reloaded = m.list().into_iter().find(|i| i.id == a.id).unwrap();
    assert_eq!(reloaded.status, Status::Error);
    assert_eq!(reloaded.last_error, "boom");
}

#[test]
fn mod_delete_removes_from_registry_and_disk() {
    let (mut m, _s) = manager_with(DbType::Postgres, false);
    let a = create(&mut m, "a", DbType::Postgres, "17", None).unwrap();
    m.delete(&a.id).unwrap();
    assert!(m.list().is_empty());
    assert!(matches!(m.status(&a.id), Err(ManagerError::NotFound(_))));
}

#[test]
fn mod_next_free_port_starts_at_engine_default() {
    let (m, _s) = manager_with(DbType::Mongodb, false);
    let p = m.next_free_port(DbType::Mongodb, &free).unwrap();
    assert!(p >= default_port(DbType::Mongodb));
    assert_eq!(p, 27017);
}

#[test]
fn start_success_marks_running_and_records_the_call() {
    let (mut m, started) = manager_with(DbType::Postgres, false);
    let a = create(&mut m, "a", DbType::Postgres, "17", None).unwrap();
    m.start(&a.id).unwrap();
    let inst = m.get(&a.id).unwrap();
    assert_eq!(inst.status, Status::Running);
    assert!(inst.last_error.is_empty());
    assert_eq!(started.lock().unwrap().as_slice(), &[a.id]);
}

#[test]
fn stop_marks_stopped() {
    let (mut m, _s) = manager_with(DbType::Postgres, false);
    let a = create(&mut m, "a", DbType::Postgres, "17", None).unwrap();
    m.start(&a.id).unwrap();
    m.stop(&a.id).unwrap();
    assert_eq!(m.get(&a.id).unwrap().status, Status::Stopped);
}

#[test]
fn stop_all_stops_every_instance() {
    let (mut m, _s) = manager_with(DbType::Postgres, false);
    let a = create(&mut m, "a", DbType::Postgres, "17", None).unwrap();
    let b = create(&mut m, "b", DbType::Postgres, "17", None).unwrap();
    m.start(&a.id).unwrap();
    m.start(&b.id).unwrap();
    m.stop_all();
    assert!(m.list().iter().all(|i| i.status == Status::Stopped));
}

#[test]
fn lifecycle_calls_on_a_missing_instance_report_not_found() {
    let (mut m, _s) = manager_with(DbType::Postgres, false);
    assert!(matches!(m.start("nope"), Err(ManagerError::NotFound(_))));
    assert!(matches!(m.stop("nope"), Err(ManagerError::NotFound(_))));
    assert!(matches!(m.delete("nope"), Err(ManagerError::NotFound(_))));
    assert!(matches!(m.status("nope"), Err(ManagerError::NotFound(_))));
    assert_eq!(m.status("nope").unwrap_err().to_string(), "no such instance: nope");
}

#[test]
fn status_reflects_the_engine_check() {
    let (mut m, _s) = manager_with(DbType::Postgres, false);
    let a = create(&mut m, "a", DbType::Postgres, "17", None).unwrap();
    assert_eq!(m.status(&a.id).unwrap(), Status::Stopped);
}

#[test]
fn create_honours_an_explicit_free_port() {
    let (mut m, _s) = manager_with(DbType::Postgres, false);
    let inst = create(&mut m, "a", DbType::Postgres, "17", Some(15432)).unwrap();
    assert_eq!(inst.port, 15432);
}

#[test]
fn versions_aggregates_every_engine() {
    let (m, _s) = manager_with(DbType::Postgres, false);
    let vs = m.versions();
    assert_eq!(vs.len(), 1);
    assert_eq!(vs[0].db_type, DbType::Postgres);
}

#[test]
fn get_returns_a_clone_or_none() {
    let (mut m, _s) = manager_with(DbType::Postgres, false);
    let a = create(&mut m, "a", DbType::Postgres, "17", None).unwrap();
    assert_eq!(m.get(&a.id).unwrap().id, a.id);
    assert!(m.get("missing").is_none());
}

#[test]
fn load_all_repopulates_from_disk() {
    let saved = {
        let (mut m, _s) = manager_with(DbType::Postgres, false);
        create(&mut m, "a", DbType::Postgres, "17", None).unwrap();
        m.snapshot()
    };
    let id = saved[0].id.clone();
    let (mut m2, _s) = manager_with(DbType::Postgres, false);
    m2.load_all(saved);
    assert_eq!(m2.get(&id).unwrap().id, id);
    assert_eq!(m2.base_dir(), "/tmp/klyradb-test");
}

#[test]
fn install_mongodb_returns_blocked_reason_and_marks_needs_install() {
    let (mut m, _s) = manager_with(DbType::Mongodb, false);
    let a = create(&mut m, "a", DbType::Mongodb, "8.2.6", None).unwrap();
    let err = m.install(&a.id, false, Platform::Linux).unwrap_err();
    let msg = match err {
        ManagerError::Engine(m) => m,
        other => panic!("expected ManagerError::Engine, got {other:?}"),
    };
    assert!(msg.contains("MongoDB on Linux"));
    assert!(!msg.contains("Unable to locate package"));
    assert!(!msg.contains("brew"));
    let stored = m.get(&a.id).unwrap();
    assert_eq!(stored.status, Status::NeedsInstall);
    assert_eq!(stored.last_error, msg);
    let saved = m.snapshot();
    let (mut m2, _s2) = manager_with(DbType::Mongodb, false);
    m2.load_all(saved);
    let reloaded = m2.get(&a.id).unwrap();
    assert_eq!(reloaded.status, Status::NeedsInstall);
    assert_eq!(reloaded.last_error, msg);
}

#[test]
fn install_mongodb_takes_precedence_over_the_snap_branch() {
    let (mut m, _s) = manager_with(DbType::Mongodb, false);
    let a = create(&mut m, "a", DbType::Mongodb, "8.2.6", None).unwrap();
    let msg = match m.install(&a.id, true, Platform::Linux).unwrap_err() {
        ManagerError::Engine(m) => m,
        other => panic!("expected ManagerError::Engine, got {other:?}"),
    };
    assert!(msg.contains("MongoDB on Linux"));
    assert!(!msg.contains("not bundled") && !msg.contains("snap"));
    assert_eq!(msg, MONGODB_BLOCKED);
}

#[test]
fn upgrade_patch_mongodb_returns_blocked_reason_and_marks_needs_install() {
    let (mut m, _s) = manager_with(DbType::Mongodb, false);
    let a = create(&mut m, "a", DbType::Mongodb, "8.2.6", None).unwrap();
    let msg = match m.upgrade_patch(&a.id, false, Platform::Linux) {
        Err(ManagerError::Engine(m)) => m,
        _ => panic!("expected ManagerError::Engine"),
    };
    assert!(msg.contains("MongoDB on Linux"));
    let stored = m.get(&a.id).unwrap();
    assert_eq!(stored.status, Status::NeedsInstall);
    assert_eq!(stored.last_error, msg);
}

#[test]
fn install_non_blocked_engine_under_snap_falls_through_to_install() {
    let (mut m, _s) = manager_with(DbType::Postgres, false);
    let a = create(&mut m, "a", DbType::Postgres, "17", None).unwrap();
    let msg = match m.install(&a.id, true, Platform::Linux) {
        Err(ManagerError::Engine(m)) => m,
        _ => panic!("expected ManagerError::Engine"),
    };
    assert!(msg.contains("snap"));
    assert!(!msg.contains("MongoDB"));
    assert_eq!(msg, SNAP_REFUSAL);
    assert_eq!(m.get(&a.id).unwrap().status, Status::Stopped);
}

#[test]
fn install_unknown_instance_returns_not_found() {
    let (mut m, _s) = manager_with(DbType::Postgres, false);
    assert!(matches!(m.install("missing", false, Platform::Linux), Err(ManagerError::NotFound(_))));
    assert!(matches!(m.upgrade_patch("missing", false, Platform::Linux), Err(ManagerError::NotFound(_))));
}

#[test]
fn a_finished_install_starts_the_instance() {
    let (mut m, started) = manager_with(DbType::Postgres, false);
    let a = create(&mut m, "a", DbType::Postgres, "17", None).unwrap();
    let cmd = m.install(&a.id, false, Platform::Linux).unwrap();
    assert_eq!(cmd.program, "pkexec");
    assert_eq!(cmd.args, vec!["apt-get", "install", "-y", "postgresql-17"]);
    assert_eq!(m.get(&a.id).unwrap().status, Status::Installing);
    m.finish_install(&a.id, Ok(())).unwrap();
    assert_eq!(m.get(&a.id).unwrap().status, Status::Running);
    assert_eq!(started.lock().unwrap().as_slice(), &[a.id.clone()]);
}

#[test]
fn a_failed_install_leaves_the_instance_needing_one() {
    let (mut m, _s) = manager_with(DbType::Postgres, false);
    let a = create(&mut m, "a", DbType::Postgres, "17", None).unwrap();
    m.install(&a.id, false, Platform::Linux).unwrap();
    let err = m.finish_install(&a.id, Err("pkexec exited with 126".into())).unwrap_err();
    assert!(matches!(err, ManagerError::Engine(ref s) if s == "pkexec exited with 126"));
    let stored = m.get(&a.id).unwrap();
    assert_eq!(stored.status, Status::NeedsInstall);
    assert_eq!(stored.last_error, "pkexec exited with 126");
}

#[test]
fn a_patch_upgrade_stops_and_restarts_the_running_instances_of_its_kind() {
    let (mut m, started) = manager_with(DbType::Postgres, false);
    let a = create(&mut m, "a", DbType::Postgres, "17", None).unwrap();
    let b = create(&mut m, "b", DbType::Postgres, "17", None).unwrap();
    m.start(&a.id).unwrap();
    let plan = m.upgrade_patch(&b.id, false, Platform::MacOs).unwrap();
    assert_eq!(plan.command.program, "brew");
    assert_eq!(plan.stopped, vec![a.id.clone()]);
    assert_eq!(m.get(&a.id).unwrap().status, Status::Stopped);
    assert_eq!(m.get(&b.id).unwrap().status, Status::Stopped);
    m.finish_upgrade(&plan.stopped, Ok(())).unwrap();
    assert_eq!(m.get(&a.id).unwrap().status, Status::Running);
    assert_eq!(m.get(&b.id).unwrap().status, Status::Stopped);
    assert_eq!(started.lock().unwrap().len(), 2);
}

#[test]
fn snapshot_orders_by_creation_time_then_id() {
    let (mut m, _s) = manager_with(DbType::Postgres, false);
    let mk = |id: &str, at: &str| Instance {
        id: id.into(),
        name: id.into(),
        db_type: DbType::Postgres,
        version: "17".into(),
        port: 5432,
        data_dir: String::new(),
        log_file: String::new(),
        pid_file: String::new(),
        conf_file: String::new(),
        user: String::new(),
        status: Status::Stopped,
        created_at: at.into(),
        last_error: String::new(),
        upgrade_version: String::new(),
        patch_update: String::new(),
    };
    m.load_all(vec![mk("c", "2026-02"), mk("b", "2026-01"), mk("a", "2026-02"), mk("c", "2025-12")]);
    let ids: Vec<String> = m.snapshot().into_iter().map(|i| i.id).collect();
    assert_eq!(ids, vec!["c", "b", "a"]);
    assert_eq!(m.get("c").unwrap().created_at, "2025-12");
}

#[test]
fn a_failed_save_is_reported_after_a_successful_operation() {
    let ok: Result<u16, ManagerError> = Ok(5432);
    assert!(matches!(settle(ok, Ok(())), Ok(5432)));
    let ok: Result<u16, ManagerError> = Ok(5432);
    match settle(ok, Err(StoreError::Corrupt("eof".into()))) {
        Err(ManagerError::Store(m)) => assert_eq!(m, "instances.json is corrupt: eof"),
        _ => panic!("expected a store error"),
    }
    let failed: Result<u16, ManagerError> = Err(ManagerError::Engine("boom".into()));
    assert!(matches!(settle(failed, Err(StoreError::Io("disk".into()))), Err(ManagerError::Engine(_))));
}

#[test]
fn no_free_port_is_reported_when_the_window_is_exhausted() {
    let (m, _s) = manager_with(DbType::Redis, false);
    let busy = |_p: u16| false;
    match m.next_free_port(DbType::Redis, &busy) {
        Err(e) => assert_eq!(e.to_string(), "no free port for redis in scan window"),
        Ok(p) => panic!("unexpected port {p}"),
    }
    let late = |p: u16| p == default_port(DbType::Redis) + PORT_SCAN_SPAN - 1;
    assert_eq!(m.next_free_port(DbType::Redis, &late).unwrap(), 6379 + 499);
}

#[test]
fn created_instances_are_laid_out_under_the_base() {
    let (mut m, _s) = manager_with(DbType::Mongodb, false);
    let a = create(&mut m, "  docs  ", DbType::Mongodb, "8.0", None).unwrap();
    assert_eq!(a.name, "docs");
    assert_eq!(a.id.len(), 12);
    assert!(a.id.chars().all(|c| c.is_ascii_hexdigit() && !c.is_ascii_uppercase()));
    assert_eq!(a.data_dir, format!("/tmp/klyradb-test/data/{}", a.id));
    assert_eq!(a.log_file, format!("/tmp/klyradb-test/logs/{}.log", a.id));
    assert_eq!(a.pid_file, format!("/tmp/klyradb-test/pids/{}.pid", a.id));
    assert_eq!(a.conf_file, format!("/tmp/klyradb-test/conf/{}.yml", a.id));
    assert_eq!(a.port, 27017);
    assert!(a.user.is_empty());
}

#[test]
fn merged_versions_keep_every_record_in_order() {
    let v = |db: DbType, major: &str| Version {
        db_type: db,
        major: major.into(),
        bin_path: String::new(),
        installed: false,
        label: format!("{} {major}", db.as_str()),
        latest_patch: major.into(),
        installed_version: String::new(),
    };
    let merged = merge_versions(vec![
        vec![v(DbType::Redis, "7.2"), v(DbType::Redis, "7.4")],
        vec![],
        vec![v(DbType::Mysql, "8.0"), v(DbType::Mysql, "8.4")],
    ]);
    let keys: Vec<(String, String)> = merged.iter().map(|x| (x.db_type.as_str().to_string(), x.major.clone())).collect();
    assert_eq!(
        keys,
        vec![
            ("mysql".to_string(), "8.4".to_string()),
            ("mysql".to_string(), "8.0".to_string()),
            ("redis".to_string(), "7.4".to_string()),
            ("redis".to_string(), "7.2".to_string()),
        ]
    );
}

#[test]
fn a_requested_port_busy_on_the_host_is_rejected() {
    let (mut m, _s) = manager_with(DbType::Postgres, false);
    let busy = |_p: u16| false;
    match m.create("a", DbType::Postgres, "17", Some(15432), &busy) {
        Err(ManagerError::Invalid(msg)) => assert_eq!(msg, "port 15432 is already in use"),
        _ => panic!("expected Invalid"),
    }
    assert!(m.list().is_empty());
    let a = create(&mut m, "a", DbType::Postgres, "17", None).unwrap();
    assert_eq!(a.user, "postgres");
}

#[test]
fn a_creation_whose_save_failed_is_taken_back() {
    let (mut m, _s) = manager_with(DbType::Postgres, false);
    let kept = create(&mut m, "kept", DbType::Postgres, "17", None).unwrap();
    let outcome = create(&mut m, "a", DbType::Postgres, "17", None);
    let id = outcome.as_ref().unwrap().id.clone();
    match m.settle_create(outcome, Err(StoreError::Io("disk full".into()))) {
        Err(ManagerError::Store(msg)) => assert_eq!(msg, "disk full"),
        _ => panic!("expected a store error"),
    }
    assert!(m.get(&id).is_none());
    assert!(m.get(&kept.id).is_some());
    let again = create(&mut m, "b", DbType::Postgres, "17", None);
    assert!(m.settle_create(again, Ok(())).is_ok());
    assert_eq!(m.list().len(), 2);
}

#[test]
fn engine_outcomes_are_recorded_on_the_instance() {
    let (mut m, _s) = manager_with(DbType::Postgres, false);
    let a = create(&mut m, "a", DbType::Postgres, "17", None).unwrap();
    m.record_outcome(&a.id, Status::Running, Ok(())).unwrap();
    assert_eq!(m.get(&a.id).unwrap().status, Status::Running);
    let err = m.record_outcome(&a.id, Status::Stopped, Err(EngineError::Tooling("late".into()))).unwrap_err();
    assert!(matches!(err, ManagerError::Engine(ref s) if s == "late"));
    let stored = m.get(&a.id).unwrap();
    assert_eq!(stored.status, Status::Error);
    assert_eq!(stored.last_error, "late");
    assert!(matches!(m.record_outcome("nope", Status::Running, Ok(())), Err(ManagerError::NotFound(_))));
}

#[test]
fn each_engine_starts_at_its_own_port() {
    assert_eq!(default_port(DbType::Postgres), 5432);
    assert_eq!(default_port(DbType::Mysql), 3306);
    assert_eq!(default_port(DbType::Mariadb), 3316);
    assert_eq!(default_port(DbType::Redis), 6379);
    assert_eq!(default_port(DbType::Mongodb), 27017);
    assert_eq!(default_port(DbType::Valkey), 6390);
    let all = DbType::all();
    for a in &all {
        for b in &all {
            assert_eq!(a == b, default_port(*a) == default_port(*b));
        }
    }
}

/// An engine stub whose initialization always fails, counting its attempts.
struct RefusingEngine {
    attempts: Arc<Mutex<usize>>,
}

impl Engine for RefusingEngine {
    fn kind(&self) -> DbType {
        DbType::Mysql
    }
    fn db_type(&self) -> DbType {
        DbType::Mysql
    }
    fn versions(&self) -> Vec<Version> {
        Vec::new()
    }
    fn create(&self, _inst: &mut Instance) -> Result<(), EngineError> {
        *self.attempts.lock().unwrap() += 1;
        Err(EngineError::Tooling("mysqld --initialize failed".into()))
    }
    fn start(&self, _inst: &Instance) -> Result<(), EngineError> {
        Ok(())
    }
    fn stop(&self, _inst: &Instance) -> Result<(), EngineError> {
        Ok(())
    }
    fn delete(&self, _inst: &Instance) -> Result<(), EngineError> {
        Ok(())
    }
    fn check_status(&self, inst: &Instance) -> Status {
        inst.status
    }
}

#[test]
fn the_host_probe_is_consulted_before_the_engine() {
    let attempts = Arc::new(Mutex::new(0usize));
    let mut m = Manager::new("/tmp/klyradb-test", vec![RefusingEngine { attempts: attempts.clone() }]);
    let busy = |_p: u16| false;
    match m.create("a", DbType::Mysql, "8.4", Some(13306), &busy) {
        Err(ManagerError::Invalid(msg)) => assert_eq!(msg, "port 13306 is already in use"),
        _ => panic!("expected Invalid"),
    }
    assert_eq!(*attempts.lock().unwrap(), 0);
    match m.create("a", DbType::Mysql, "8.4", Some(13306), &free) {
        Err(ManagerError::Engine(msg)) => assert_eq!(msg, "mysqld --initialize failed"),
        _ => panic!("expected the engine's failure"),
    }
    assert_eq!(*attempts.lock().unwrap(), 1);
    assert!(m.list().is_empty());
    assert!(!m.take_dirty());
}

#[test]
fn a_draw_is_settled_by_the_registry() {
    let (mut m, _s) = manager_with(DbType::Postgres, false);
    match m.draw_id(None) {
        Some(Err(ManagerError::Invalid(msg))) => assert_eq!(msg, "system RNG unavailable"),
        _ => panic!("expected the random-source error"),
    }
    let bytes = [0x0a, 0xb1, 0x00, 0xff, 0x12, 0x9c];
    match m.draw_id(Some(bytes)) {
        Some(Ok(id)) => assert_eq!(id, "0ab100ff129c"),
        _ => panic!("expected a fresh id"),
    }
    let a = create(&mut m, "a", DbType::Postgres, "17", None).unwrap();
    let mut taken = [0u8; 6];
    for k in 0..6 {
        taken[k] = u8::from_str_radix(&a.id[2 * k..2 * k + 2], 16).unwrap();
    }
    assert!(m.draw_id(Some(taken)).is_none());
}

#[test]
fn an_engine_outcome_settles_the_creation() {
    let (mut m, _s) = manager_with(DbType::Postgres, false);
    let a = create(&mut m, "a", DbType::Postgres, "17", None).unwrap();
    let mut pre = a.clone();
    pre.id = "00000000beef".into();
    pre.status = Status::Init;
    match m.register_created(pre.clone(), Err(EngineError::Io("disk full".into()))) {
        Err(ManagerError::Engine(msg)) => assert_eq!(msg, "disk full"),
        _ => panic!("expected the engine's error"),
    }
    assert_eq!(m.list().len(), 1);
    let got = m.register_created(pre.clone(), Ok(())).unwrap();
    assert_eq!(got.status, Status::Stopped);
    assert_eq!(got.id, "00000000beef");
    assert_eq!(m.get("00000000beef").unwrap().port, pre.port);
    assert_eq!(m.list().len(), 2);
    assert!(m.take_dirty());
}
