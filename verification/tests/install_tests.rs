use klyradb::engine::DbType;
use klyradb::install::{blocked_reason, install, install_command, package_name, Platform, SNAP_REFUSAL, UNSUPPORTED_PLATFORM};

#[test]
fn postgres_package_is_major_specific() {
    assert_eq!(package_name(DbType::Postgres, "17"), "postgresql-17");
}

#[test]
fn other_engines_use_a_single_server_package() {
    assert_eq!(package_name(DbType::Mysql, "8.4"), "mysql-server");
    assert_eq!(package_name(DbType::Mariadb, "11.4"), "mariadb-server");
    assert_eq!(package_name(DbType::Redis, "7.4"), "redis-server");
    assert_eq!(package_name(DbType::Valkey, "8.1"), "valkey");
    assert_eq!(package_name(DbType::Mongodb, "8.0"), "mongodb-org");
}

#[test]
fn blocked_reason_explains_mongodb_on_linux() {
    let reason = blocked_reason(DbType::Mongodb, "8.2.6").expect("MongoDB on Linux is blocked");
    for needle in [
        "MongoDB on Linux",
        "repo.mongodb.org",
        "klyradb does not",
        "mongodb-org",
        "rewrite",
    ] {
        assert!(
            reason.contains(needle),
            "MongoDB reason missing {needle:?}; full message:\n{reason}"
        );
    }
}

#[test]
fn blocked_reason_is_none_for_every_other_engine() {
    for db in [
        DbType::Postgres,
        DbType::Mysql,
        DbType::Mariadb,
        DbType::Valkey,
        DbType::Redis,
    ] {
        assert_eq!(
            blocked_reason(db, ""),
            None,
            "blocked_reason({db:?}) must be None — install is supported",
        );
    }
}

#[test]
fn install_mongodb_on_linux_short_circuits_before_the_snap_branch() {
    let err = install(DbType::Mongodb, "8.2.6", true, Platform::Linux)
        .expect_err("Install(MongoDB,Linux) must fail");
    assert!(
        err.contains("MongoDB on Linux"),
        "got the snap message instead of the blocked reason: {err}",
    );
    assert!(
        !err.contains("snap"),
        "install must short-circuit before the Snap branch — got a snap message: {err}",
    );
}

#[test]
fn install_non_blocked_engine_inside_a_snap_uses_the_snap_branch() {
    let err = install(DbType::Postgres, "17", true, Platform::Linux)
        .expect_err("Install(Postgres, snap) must fail with the snap message");
    assert!(
        err.contains("snap"),
        "non-blocked engine under snap must surface the snap message, got: {err}",
    );
    assert!(
        !err.contains("MongoDB"),
        "non-blocked engine must not surface the MongoDB reason: {err}",
    );
    assert_eq!(err, SNAP_REFUSAL);
}

#[test]
fn install_commands_follow_the_platform() {
    let linux = install(DbType::Postgres, "17", false, Platform::Linux).unwrap();
    assert_eq!(linux.program, "pkexec");
    assert_eq!(linux.args, vec!["apt-get", "install", "-y", "postgresql-17"]);
    let mac = install(DbType::Redis, "7.4", false, Platform::MacOs).unwrap();
    assert_eq!(mac.program, "brew");
    assert_eq!(mac.args, vec!["install", "redis-server"]);
    assert_eq!(install_command("valkey", Platform::Other).unwrap_err(), UNSUPPORTED_PLATFORM);
}
