//! MariaDB engine.
//!
//! MariaDB shares MySQL's tooling shape but its own binaries (`mariadbd`,
//! `mariadb-install-db`, `mariadb-admin`), falling back to the legacy `mysql*`
//! names where a build still uses them. Like MySQL it is initialized with
//! `--no-defaults` so the host configuration can never redirect it.

use vstd::prelude::*;
use vstd::string::*;
use crate::engine::paths::{concat, first_accepted, first_present, join, opt_view, parent_path, path_parent, sbin_candidates, spec_join, spec_sbin_candidates, views_of};
use crate::engine::{detected_versions, is_family_version, opt_str, DbType, Instance, Version};
use crate::mysql;
use crate::text::{contains_seq, contains_str, dec, push_dec};
use crate::versions::spec_families;

verus! {

/// The MariaDB engine.
pub struct MariadbEngine;

impl MariadbEngine {
    /// Builds the MariaDB engine.
    pub fn new() -> MariadbEngine {
        MariadbEngine
    }

    /// The engine kind this engine manages.
    pub fn db_type(&self) -> (r: DbType)
        ensures
            r == DbType::Mariadb,
    {
        DbType::Mariadb
    }

    /// One record per bundled family, given the version the installed server
    /// reports (if one was found) and the directory holding it.
    pub fn versions(&self, installed: Option<&str>, bin_dir: &str) -> (r: Vec<Version>)
        ensures
            r@.len() == spec_families(DbType::Mariadb).len(),
            forall|i: int|
                0 <= i < r@.len() ==> is_family_version(
                    #[trigger] r@[i],
                    DbType::Mariadb,
                    "MariaDB"@,
                    spec_families(DbType::Mariadb)[i],
                    opt_str(installed),
                    bin_dir@,
                ),
    {
        detected_versions(DbType::Mariadb, "MariaDB", installed, bin_dir)
    }
}

/// Whether a daemon's `--version` output names a genuine MariaDB build (a
/// plain MySQL `mysqld` under the same name is not one).
pub fn is_mariadb_build(out: &str) -> (b: bool)
    ensures
        b == contains_seq(out@, "MariaDB"@),
{
    contains_str(out, "MariaDB")
}

/// Parses a `mariadbd --version` line: the token after `Ver`, before `-suffix`.
pub fn parse_version(out: &str) -> (r: Option<String>)
    ensures
        match r {
            Some(v) => mysql::spec_parse_version(out@) == Some(v@),
            None => mysql::spec_parse_version(out@) is None,
        },
{
    mysql::parse_version(out)
}

/// The installed server's version, from its `--version` output: only a
/// genuine MariaDB build reports one.
pub open spec fn spec_detect_version(out: Seq<char>) -> Option<Seq<char>> {
    if contains_seq(out, "MariaDB"@) {
        mysql::spec_parse_version(out)
    } else {
        None
    }
}

/// The installed server's version, from its `--version` output.
pub fn detect_version(out: &str) -> (r: Option<String>)
    ensures
        match r {
            Some(v) => spec_detect_version(out@) == Some(v@),
            None => spec_detect_version(out@) is None,
        },
{
    if !is_mariadb_build(out) {
        return None;
    }
    parse_version(out)
}

/// Resolves a MariaDB executable: the first of the `sbin`/`bin` candidates
/// (see [`spec_sbin_candidates`], with the snap's `opt/klyra-mariadb` prefix
/// and the engines directory's `mariadb` folder) that `is_file` accepts.
pub fn find_bin<F: Fn(&str) -> bool>(
    snap: Option<&str>,
    base: &str,
    name: &str,
    path_dirs: &Vec<String>,
    is_file: &F,
) -> (r: Option<String>)
    requires
        forall|s: &str| is_file.requires((s,)),
    ensures
        first_accepted(
            spec_sbin_candidates(
                opt_view(snap),
                "opt/klyra-mariadb"@,
                base@,
                "mariadb"@,
                name@,
                views_of(path_dirs@),
            ),
            *is_file,
            match r {
                Some(p) => Some(p@),
                None => None,
            },
        ),
{
    let c = sbin_candidates(snap, "opt/klyra-mariadb", base, "mariadb", name, path_dirs);
    first_present(&c, is_file)
}

/// The install base directory: the snap prefix when confined, otherwise the
/// grandparent of the daemon binary (`/usr` when it has none).
pub open spec fn spec_base_prefix(snap: Option<Seq<char>>, mariadbd: Seq<char>) -> Seq<char> {
    match snap {
        Some(s) => spec_join(s, "opt/klyra-mariadb"@),
        None => match path_parent(mariadbd) {
            Some(p) => match path_parent(p) {
                Some(g) => g,
                None => "/usr"@,
            },
            None => "/usr"@,
        },
    }
}

/// The install base directory (e.g. `/usr/sbin/mariadbd` → `/usr`).
pub fn base_prefix(snap: Option<&str>, mariadbd: &str) -> (r: String)
    ensures
        r@ == spec_base_prefix(opt_view(snap), mariadbd@),
{
    if let Some(s) = snap {
        return join(s, "opt/klyra-mariadb");
    }
    match parent_path(mariadbd) {
        Some(p) => match parent_path(p.as_str()) {
            Some(g) => g,
            None => "/usr".to_owned(),
        },
        None => "/usr".to_owned(),
    }
}

/// The arguments that initialize an instance's data directory.
pub open spec fn spec_install_db_args(inst: Instance, basedir: Seq<char>, snap: Option<Seq<char>>) -> Seq<
    Seq<char>,
> {
    let common = seq![
        "--no-defaults"@,
        "--user="@ + inst.user@,
        "--datadir="@ + inst.data_dir@,
        "--basedir="@ + basedir,
    ];
    match snap {
        Some(s) => common + seq![
            "--lc-messages-dir="@ + spec_join(s, "opt/klyra-mariadb"@) + "/share/mysql"@,
        ],
        None => common,
    }
}

/// The arguments that initialize an instance's data directory, never
/// reading host configuration, and inside a snap pointed at the bundled
/// message files.
pub fn install_db_args(inst: &Instance, basedir: &str, snap: Option<&str>) -> (r: Vec<String>)
    ensures
        views_of(r@) == spec_install_db_args(*inst, basedir@, opt_view(snap)),
{
    let mut args: Vec<String> = Vec::new();
    args.push("--no-defaults".to_owned());
    args.push(concat("--user=", inst.user.as_str()));
    args.push(concat("--datadir=", inst.data_dir.as_str()));
    args.push(concat("--basedir=", basedir));
    if let Some(s) = snap {
        let prefix = join(s, "opt/klyra-mariadb");
        let mut l = concat("--lc-messages-dir=", prefix.as_str());
        l.append("/share/mysql");
        args.push(l);
    }
    assert(views_of(args@) =~= spec_install_db_args(*inst, basedir@, opt_view(snap)));
    args
}

/// The `[mariadbd]` config for an instance.
pub open spec fn spec_render_conf(inst: Instance) -> Seq<char> {
    "[mariadbd]\ndatadir = "@ + inst.data_dir@ + "\nsocket = "@ + spec_join(
        inst.data_dir@,
        "mariadb.sock"@,
    ) + "\nport = "@ + dec(inst.port as nat) + "\npid-file = "@ + inst.pid_file@
        + "\nlog-error = "@ + inst.log_file@ + "\nuser = "@ + inst.user@
        + "\nbind-address = 127.0.0.1\n"@
}

/// Renders the `[mariadbd]` config for an instance, bound to loopback, with
/// its socket in the data directory.
pub fn render_conf(inst: &Instance) -> (r: String)
    ensures
        r@ == spec_render_conf(*inst),
{
    let sock = join(inst.data_dir.as_str(), "mariadb.sock");
    let mut s = "[mariadbd]\ndatadir = ".to_owned();
    s.append(inst.data_dir.as_str());
    s.append("\nsocket = ");
    s.append(sock.as_str());
    s.append("\nport = ");
    push_dec(&mut s, inst.port as u64);
    s.append("\npid-file = ");
    s.append(inst.pid_file.as_str());
    s.append("\nlog-error = ");
    s.append(inst.log_file.as_str());
    s.append("\nuser = ");
    s.append(inst.user.as_str());
    s.append("\nbind-address = 127.0.0.1\n");
    assert(s@ =~= spec_render_conf(*inst));
    s
}

/// How long a starting server is given to open its port, in seconds.
pub const START_TIMEOUT_SECS: u64 = 45;

/// The pause before each port probe while a server starts, in milliseconds.
pub const POLL_INTERVAL_MS: u64 = 500;

/// The daemon's names, in the order they are tried.
pub const DAEMONS: [&'static str; 2] = ["mariadbd", "mysqld"];

/// The data-directory initializers' names, in the order they are tried.
pub const INSTALLERS: [&'static str; 2] = ["mariadb-install-db", "mysql_install_db"];

/// The launcher scripts' names, in the order they are tried.
pub const LAUNCHERS: [&'static str; 2] = ["mariadbd-safe", "mysqld_safe"];

/// The admin tools' names, in the order they are tried for shutdown.
pub const ADMINS: [&'static str; 2] = ["mariadb-admin", "mysqladmin"];

/// The admin-tool arguments that shut the server down as root over its
/// socket, `mariadb.sock` in the data directory.
pub fn shutdown_args(inst: &Instance) -> (r: Vec<String>)
    ensures
        views_of(r@) == seq![
            "-u"@,
            "root"@,
            "--socket="@ + spec_join(inst.data_dir@, "mariadb.sock"@),
            "shutdown"@,
        ],
{
    mysql::shutdown_args(inst, "mariadb.sock")
}

/// The first candidate whose `--version` output (`None` where it could not
/// be run) names a genuine MariaDB build.
pub open spec fn spec_pick_daemon(found: Seq<(Seq<char>, Option<Seq<char>>)>) -> Option<Seq<char>>
    decreases found.len(),
{
    if found.len() == 0 {
        None
    } else if found[0].1 matches Some(out) && contains_seq(out, "MariaDB"@) {
        Some(found[0].0)
    } else {
        spec_pick_daemon(found.drop_first())
    }
}

/// The views of the daemon candidates.
pub open spec fn candidate_views(found: Seq<(String, Option<String>)>) -> Seq<(Seq<char>, Option<Seq<char>>)> {
    found.map_values(|c: (String, Option<String>)| (c.0@, match c.1 {
        Some(o) => Some(o@),
        None => None,
    }))
}

/// Picks the genuine MariaDB daemon among the found candidates (a MySQL
/// `mysqld` under the same name is passed over), each given with what it
/// printed for `--version`.
pub fn pick_daemon(found: &Vec<(String, Option<String>)>) -> (r: Option<String>)
    ensures
        match r {
            Some(p) => spec_pick_daemon(candidate_views(found@)) == Some(p@),
            None => spec_pick_daemon(candidate_views(found@)) is None,
        },
{
    let ghost v = candidate_views(found@);
    let mut i: usize = 0;
    proof {
        assert(v.skip(0) =~= v);
    }
    while i < found.len()
        invariant
            i <= found@.len(),
            v == candidate_views(found@),
            spec_pick_daemon(v) == spec_pick_daemon(v.skip(i as int)),
        decreases found@.len() - i,
    {
        proof {
            assert(v.skip(i as int)[0] == v[i as int]);
            assert(v.skip(i as int).drop_first() =~= v.skip(i + 1));
        }
        match &found[i].1 {
            Some(out) => {
                if is_mariadb_build(out.as_str()) {
                    return Some(found[i].0.clone());
                }
            },
            None => {},
        }
        i = i + 1;
    }
    None
}

/// How a failed data-directory initialization is named in its error.
pub const INIT_STEP: &'static str = "mariadb-install-db";

/// How a failed daemon launch is named in its error.
pub const START_STEP: &'static str = "mariadbd start";

/// How a server that is late to open its port is named.
pub const READY_LABEL: &'static str = "mariadb";

/// The process named when no shutdown path reached it (and the daemon
/// reported missing).
pub const PROCESS: &'static str = "mariadbd";

} // verus!
