use klyradb::engine::{DbType, EngineError, Instance, Status};
use klyradb::mariadb::{self, MariadbEngine};
use klyradb::mongodb::{self, MongoEngine};
use klyradb::mysql::{self, MysqlEngine};
use klyradb::pg::{self, PgEngine, PgInstall};
use klyradb::redis::{self, RespEngine};
use klyradb::versions;

fn sample(id: &str, db: DbType, port: u16, conf_ext: &str, user: &str) -> Instance {
    Instance {
        id: id.into(),
        name: "app".into(),
        db_type: db,
        version: "8.4".into(),
        port,
        data_dir: format!("/base/data/{id}"),
        log_file: format!("/base/logs/{id}.log"),
        pid_file: format!("/base/pids/{id}.pid"),
        conf_file: if conf_ext.is_empty() { String::new() } else { format!("/base/conf/{id}.{conf_ext}") },
        user: user.into(),
        status: Status::Stopped,
        created_at: "2026-06-29T00:00:00Z".into(),
        last_error: String::new(),
        upgrade_version: String::new(),
        patch_update: String::new(),
    }
}

// MariaDB

#[test]
fn reports_mariadb_type() {
    assert_eq!(MariadbEngine::new().db_type(), DbType::Mariadb);
}

#[test]
fn conf_uses_mariadbd_section_bound_to_loopback() {
    let conf = mariadb::render_conf(&sample("ma0001", DbType::Mariadb, 3316, "cnf", "root"));
    assert!(conf.contains("[mariadbd]"));
    assert!(conf.contains("port = 3316"));
    assert!(conf.contains("socket = /base/data/ma0001/mariadb.sock"));
    assert!(conf.contains("bind-address = 127.0.0.1"));
}

#[test]
fn version_is_parsed_from_a_mariadb_build_string() {
    let out = "mariadbd  Ver 11.4.2-MariaDB-1 for debian-linux-gnu";
    assert_eq!(mariadb::parse_version(out), Some("11.4.2".to_string()));
}

#[test]
fn base_prefix_is_grandparent_of_binary_outside_snap() {
    assert_eq!(mariadb::base_prefix(None, "/usr/sbin/mariadbd"), "/usr");
    assert_eq!(mariadb::base_prefix(Some("/snap/x"), "/usr/sbin/mariadbd"), "/snap/x/opt/klyra-mariadb");
}

#[test]
fn versions_list_covers_the_bundled_families() {
    let listed = MariadbEngine::new().versions(None, "");
    assert_eq!(listed.len(), versions::families(DbType::Mariadb).len());
    assert_eq!(listed[0].label, format!("MariaDB {}", listed[0].major));
}

#[test]
fn mariadb_detection_rejects_mysql_builds() {
    assert_eq!(mariadb::detect_version("mysqld  Ver 8.4.0 for Linux"), None);
    assert_eq!(
        mariadb::detect_version("mariadbd  Ver 11.4.2-MariaDB-1 for debian-linux-gnu"),
        Some("11.4.2".to_string())
    );
}

#[test]
fn mariadb_shuts_down_over_its_own_socket() {
    let inst = sample("ma0001", DbType::Mariadb, 3316, "cnf", "root");
    assert_eq!(
        mariadb::shutdown_args(&inst),
        vec!["-u", "root", "--socket=/base/data/ma0001/mariadb.sock", "shutdown"]
    );
    assert_eq!(
        mariadb::install_db_args(&inst, "/usr", None),
        vec!["--no-defaults", "--user=root", "--datadir=/base/data/ma0001", "--basedir=/usr"]
    );
}

// MongoDB

#[test]
fn reports_mongodb_type() {
    assert_eq!(MongoEngine::new().db_type(), DbType::Mongodb);
}

#[test]
fn conf_forks_binds_loopback_and_points_at_instance_paths() {
    let conf = mongodb::render_conf(&sample("m00001", DbType::Mongodb, 27017, "yml", ""));
    assert!(conf.contains("dbPath: /base/data/m00001"));
    assert!(conf.contains("port: 27017"));
    assert!(conf.contains("bindIp: 127.0.0.1"));
    assert!(conf.contains("fork: true"));
    assert!(conf.contains("pidFilePath: /base/pids/m00001.pid"));
}

#[test]
fn version_is_parsed_from_db_version_line() {
    let out = "db version v8.0.5\nBuild Info: ...";
    assert_eq!(mongodb::parse_version(out), Some("8.0.5".to_string()));
    assert_eq!(mongodb::parse_version("no version"), None);
}

#[test]
fn mod_versions_list_covers_the_bundled_families() {
    let listed = MongoEngine::new().versions(None, "");
    assert_eq!(listed.len(), versions::families(DbType::Mongodb).len());
    assert_eq!(listed[0].label, format!("MongoDB {}", listed[0].major));
}

#[test]
fn mongod_commands_use_the_instance_config_and_port() {
    let inst = sample("m00001", DbType::Mongodb, 27017, "yml", "");
    assert_eq!(mongodb::start_args(&inst), vec!["--config", "/base/conf/m00001.yml"]);
    assert_eq!(
        mongodb::shutdown_args(&inst),
        vec!["--port", "27017", "--eval", "db.adminCommand({shutdown:1})", "admin"]
    );
}

// MySQL

#[test]
fn reports_mysql_type() {
    assert_eq!(MysqlEngine::new().db_type(), DbType::Mysql);
}

#[test]
fn conf_binds_loopback_with_instance_paths() {
    let conf = mysql::render_conf(&sample("my0001", DbType::Mysql, 3306, "cnf", "root"), None);
    assert!(conf.contains("[mysqld]"));
    assert!(conf.contains("datadir = /base/data/my0001"));
    assert!(conf.contains("port = 3306"));
    assert!(conf.contains("socket = /base/data/my0001/mysql.sock"));
    assert!(conf.contains("bind-address = 127.0.0.1"));
}

#[test]
fn version_is_parsed_after_ver_and_before_suffix() {
    let out = "/usr/sbin/mysqld  Ver 8.4.0-1ubuntu for Linux";
    assert_eq!(mysql::parse_version(out), Some("8.4.0".to_string()));
    assert_eq!(mysql::parse_version("no version here"), None);
}

#[test]
fn mysql_versions_list_covers_the_bundled_families() {
    let listed = MysqlEngine::new().versions(None, "");
    assert_eq!(listed.len(), versions::families(DbType::Mysql).len());
    assert_eq!(listed[0].label, format!("MySQL {}", listed[0].major));
}

#[test]
fn mysql_inside_a_snap_points_at_the_isolated_prefix() {
    let inst = sample("my0001", DbType::Mysql, 3306, "cnf", "root");
    let conf = mysql::render_conf(&inst, Some("/snap/k/1"));
    assert!(conf.contains("basedir = /snap/k/1/opt/klyra-mysql\n"));
    let args = mysql::initialize_args(&inst, Some("/snap/k/1"));
    assert_eq!(
        args,
        vec![
            "--no-defaults",
            "--initialize-insecure",
            "--user=root",
            "--datadir=/base/data/my0001",
            "--basedir=/snap/k/1/opt/klyra-mysql",
            "--plugin-dir=/snap/k/1/opt/klyra-mysql/lib/mysql/plugin",
            "--lc-messages-dir=/snap/k/1/opt/klyra-mysql/share/mysql"
        ]
    );
    assert_eq!(mysql::detect_version("mysqld  Ver 11.4.2-MariaDB-1"), None);
    assert_eq!(mysql::daemon_args(&inst), vec!["--defaults-file=/base/conf/my0001.cnf", "--daemonize"]);
}

// PostgreSQL

#[test]
fn reports_postgres_type() {
    assert_eq!(PgEngine::new().db_type(), DbType::Postgres);
}

#[test]
fn versions_list_covers_the_bundled_families_newest_first() {
    let listed = PgEngine::new().versions(&Vec::new());
    let fams = versions::families(DbType::Postgres);
    assert_eq!(listed.len(), fams.len());
    assert_eq!(listed[0].major, fams[0]);
    assert_eq!(listed[0].label, format!("PostgreSQL {}", fams[0]));
}

#[test]
fn bin_for_an_absent_major_is_not_installed_error() {
    let err = PgEngine::new().bin_for(&Vec::new(), "99").unwrap_err();
    assert!(matches!(err, EngineError::NotInstalled(_)));
    assert_eq!(err.to_string(), "PostgreSQL 99 is not installed");
}

#[test]
fn pg_marks_the_installed_major_and_builds_its_commands() {
    let found = vec![PgInstall {
        major: "17".into(),
        bin_dir: "/usr/lib/postgresql/17/bin".into(),
        version_output: Some("postgres (PostgreSQL) 17.4\n".into()),
    }];
    let listed = PgEngine::new().versions(&found);
    let v17 = listed.iter().find(|v| v.major == "17").unwrap();
    assert!(v17.installed);
    assert_eq!(v17.bin_path, "/usr/lib/postgresql/17/bin");
    assert_eq!(v17.installed_version, "17.4");
    assert_eq!(PgEngine::new().bin_for(&found, "17").unwrap(), "/usr/lib/postgresql/17/bin");
    let inst = sample("pg0001", DbType::Postgres, 5432, "", "postgres");
    let start = pg::start_call("/usr/lib/postgresql/17/bin", &inst);
    assert_eq!(start.program, "/usr/lib/postgresql/17/bin/pg_ctl");
    assert_eq!(
        start.args,
        vec!["-D", "/base/data/pg0001", "-l", "/base/logs/pg0001.log", "-o", "-p 5432 -k /base/data/pg0001", "start"]
    );
    assert_eq!(pg::postmaster_pid(&inst), "/base/data/pg0001/postmaster.pid");
}

// Redis / Valkey

#[test]
fn redis_and_valkey_report_their_own_type() {
    assert_eq!(RespEngine::redis().db_type(), DbType::Redis);
    assert_eq!(RespEngine::valkey().db_type(), DbType::Valkey);
}

#[test]
fn conf_binds_loopback_disables_persistence_and_points_at_instance_paths() {
    let mut inst = sample("abc123", DbType::Redis, 6390, "conf", "");
    inst.version = "7.4".into();
    let conf = redis::render_conf(&inst);
    assert!(conf.contains("port 6390"));
    assert!(conf.contains("bind 127.0.0.1"));
    assert!(conf.contains("daemonize yes"));
    assert!(conf.contains("save \"\""));
    assert!(conf.contains("pidfile /base/pids/abc123.pid"));
    assert!(conf.contains("dir /base/data/abc123"));
}

#[test]
fn version_is_parsed_from_the_v_field() {
    assert_eq!(
        redis::parse_version("Redis server v=7.4.0 sha=00000000 bits=64"),
        Some("7.4.0".to_string())
    );
    assert_eq!(
        redis::parse_version("Valkey server v=8.0.1 sha=abc"),
        Some("8.0.1".to_string())
    );
    assert_eq!(redis::parse_version("no version here"), None);
}

#[test]
fn redis_versions_list_covers_the_bundled_families() {
    let listed = RespEngine::redis().versions(None, "");
    assert_eq!(listed.len(), versions::families(DbType::Redis).len());
    assert!(listed.iter().all(|v| v.db_type == DbType::Redis));
    assert_eq!(listed[0].label, format!("Redis {}", listed[0].major));
}

#[test]
fn redis_marks_the_family_of_the_installed_server() {
    let fams = versions::families(DbType::Redis);
    let installed = format!("{}.0", fams[0]);
    let listed = RespEngine::redis().versions(Some(&installed), "/usr/bin");
    assert!(listed[0].installed);
    assert_eq!(listed[0].bin_path, "/usr/bin");
    assert_eq!(listed[0].installed_version, installed);
    assert!(listed[1..].iter().all(|v| !v.installed && v.bin_path.is_empty()));
    let inst = sample("abc123", DbType::Redis, 6390, "conf", "");
    assert_eq!(redis::shutdown_args(&inst), vec!["-p", "6390", "shutdown", "nosave"]);
    assert_eq!(
        RespEngine::valkey().not_found(),
        "valkey-server not found — install it to create this instance"
    );
}

#[test]
fn the_genuine_mariadb_daemon_is_picked() {
    let found = vec![
        ("/usr/sbin/mysqld".to_string(), Some("mysqld  Ver 8.4.0 for Linux".to_string())),
        ("/usr/local/sbin/broken".to_string(), None),
        ("/opt/sbin/mysqld".to_string(), Some("mysqld  Ver 11.4.2-MariaDB-1".to_string())),
    ];
    assert_eq!(mariadb::pick_daemon(&found), Some("/opt/sbin/mysqld".to_string()));
    assert_eq!(mariadb::pick_daemon(&found[..2].to_vec()), None);
}
