//! MySQL engine.
//!
//! Instances are initialized insecurely (no root password) for local-only use
//! and always with `--no-defaults`, so MySQL never reads the host's
//! `/etc/mysql/*`. Inside a snap the isolated `opt/klyra-mysql` prefix is
//! supplied explicitly.

use vstd::prelude::*;
use vstd::string::*;
use crate::engine::paths::{concat, first_accepted, first_present, join, opt_view, sbin_candidates, spec_join, spec_sbin_candidates, views_of};
use crate::engine::{detected_versions, is_family_version, opt_str, DbType, Instance, Version};
use crate::text::{before, chars_of, find, lemma_find, contains_seq, contains_str, dec, eq_ignore_ascii_case, eq_ignore_case, find_from, push_dec, slice_chars, split_words, string_of, views, words};
use crate::versions::spec_families;

verus! {

/// The MySQL engine.
pub struct MysqlEngine;

impl MysqlEngine {
    /// Builds the MySQL engine.
    pub fn new() -> MysqlEngine {
        MysqlEngine
    }

    /// The engine kind this engine manages.
    pub fn db_type(&self) -> (r: DbType)
        ensures
            r == DbType::Mysql,
    {
        DbType::Mysql
    }

    /// One record per bundled family, given the version the installed server
    /// reports (if one was found) and the directory holding it.
    pub fn versions(&self, installed: Option<&str>, bin_dir: &str) -> (r: Vec<Version>)
        ensures
            r@.len() == spec_families(DbType::Mysql).len(),
            forall|i: int|
                0 <= i < r@.len() ==> is_family_version(
                    #[trigger] r@[i],
                    DbType::Mysql,
                    "MySQL"@,
                    spec_families(DbType::Mysql)[i],
                    opt_str(installed),
                    bin_dir@,
                ),
    {
        detected_versions(DbType::Mysql, "MySQL", installed, bin_dir)
    }
}

/// The version a `--version` output reports: the field after the first field
/// that reads `ver` in any case, cut at its first `-`; nothing when that field
/// is missing.
pub open spec fn spec_parse_ver(ws: Seq<Seq<char>>) -> Option<Seq<char>>
    decreases ws.len(),
{
    if ws.len() == 0 {
        None
    } else if eq_ignore_case(ws[0], "ver"@) {
        if ws.len() > 1 {
            Some(before(ws[1], '-'))
        } else {
            None
        }
    } else {
        spec_parse_ver(ws.drop_first())
    }
}

/// With the first `ver` word at position `k` and a word after it, the parse
/// gives that word cut at its first `-`.
proof fn lemma_parse_ver_at(ws: Seq<Seq<char>>, k: int)
    requires
        0 <= k && k + 1 < ws.len(),
        eq_ignore_case(ws[k], "ver"@),
        forall|j: int| 0 <= j < k ==> !eq_ignore_case(#[trigger] ws[j], "ver"@),
    ensures
        spec_parse_ver(ws) == Some(before(ws[k + 1], '-')),
    decreases k,
{
    if k > 0 {
        assert(!eq_ignore_case(ws[0], "ver"@));
        let rest = ws.drop_first();
        assert forall|j: int| 0 <= j < k - 1 implies !eq_ignore_case(#[trigger] rest[j], "ver"@) by {
            assert(rest[j] == ws[j + 1]);
        }
        lemma_parse_ver_at(rest, k - 1);
    }
}

/// With no word reading `ver`, nothing is parsed.
proof fn lemma_parse_ver_none(ws: Seq<Seq<char>>)
    requires
        forall|j: int| 0 <= j < ws.len() ==> !eq_ignore_case(#[trigger] ws[j], "ver"@),
    ensures
        spec_parse_ver(ws) is None,
    decreases ws.len(),
{
    if ws.len() > 0 {
        let rest = ws.drop_first();
        assert forall|j: int| 0 <= j < rest.len() implies !eq_ignore_case(#[trigger] rest[j], "ver"@) by {
            assert(rest[j] == ws[j + 1]);
        }
        lemma_parse_ver_none(rest);
    }
}

/// The version a `--version` line reports is the word after its first word
/// reading `ver` (in any case), up to that word's first `-`, or the whole word
/// when it has none (`Ver 8.4.2 for Linux` reports `8.4.2`; `Ver 8.0.36-0ubuntu`
/// reports `8.0.36`); a line without such a word reports nothing.
pub proof fn law_version_after_ver(out: Seq<char>, k: int)
    requires
        0 <= k && k + 1 < words(out).len(),
        eq_ignore_case(words(out)[k], "ver"@),
        forall|j: int| 0 <= j < k ==> !eq_ignore_case(#[trigger] words(out)[j], "ver"@),
    ensures
        spec_parse_version(out) matches Some(v) && {
            let t = words(out)[k + 1];
            &&& v.len() <= t.len()
            &&& v == t.take(v.len() as int)
            &&& !v.contains('-')
            &&& (v.len() == t.len() || t[v.len() as int] == '-')
        },
{
    let ws = words(out);
    lemma_parse_ver_at(ws, k);
    let t = ws[k + 1];
    lemma_find(t, '-');
    let v = before(t, '-');
    assert(v.len() == find(t, '-'));
    assert(v == t.take(v.len() as int));
    assert forall|i: int| 0 <= i < v.len() implies v[i] != '-' by {
        assert(v[i] == t[i]);
    }
}

/// A `--version` line with no word reading `ver` reports no version.
pub proof fn law_no_ver_no_version(out: Seq<char>)
    requires
        forall|j: int| 0 <= j < words(out).len() ==> !eq_ignore_case(#[trigger] words(out)[j], "ver"@),
    ensures
        spec_parse_version(out) is None,
{
    lemma_parse_ver_none(words(out));
}

/// The version a `mysqld --version` line reports.
pub open spec fn spec_parse_version(out: Seq<char>) -> Option<Seq<char>> {
    spec_parse_ver(words(out))
}

/// Parses a `mysqld --version` line: the token after `Ver`, before any
/// `-suffix`.
pub fn parse_version(out: &str) -> (r: Option<String>)
    ensures
        match r {
            Some(v) => spec_parse_version(out@) == Some(v@),
            None => spec_parse_version(out@) is None,
        },
{
    let ws = split_words(&chars_of(out));
    let mut i: usize = 0;
    proof {
        assert(views(ws@).skip(0) =~= views(ws@));
    }
    while i < ws.len()
        invariant
            i <= ws.len(),
            views(ws@) == words(out@),
            spec_parse_ver(views(ws@)) == spec_parse_ver(views(ws@).skip(i as int)),
        decreases ws.len() - i,
    {
        proof {
            assert(views(ws@).skip(i as int)[0] == ws@[i as int]@);
            assert(views(ws@).skip(i as int).drop_first() =~= views(ws@).skip(i + 1));
        }
        if eq_ignore_ascii_case(&ws[i], "ver") {
            if i + 1 < ws.len() {
                let next = &ws[i + 1];
                proof {
                    assert(views(ws@).skip(i as int)[1] == next@);
                    assert(next@.skip(0) =~= next@);
                }
                let cut = find_from(next, '-', 0);
                let v = slice_chars(next, 0, cut);
                return Some(string_of(&v));
            } else {
                return None;
            }
        }
        i = i + 1;
    }
    None
}

/// The installed server's version, from its `--version` output: a build that
/// says it is MariaDB is not a MySQL server and reports nothing.
pub open spec fn spec_detect_version(out: Seq<char>) -> Option<Seq<char>> {
    if contains_seq(out, "MariaDB"@) {
        None
    } else {
        spec_parse_version(out)
    }
}

/// The installed server's version, from its `--version` output.
pub fn detect_version(out: &str) -> (r: Option<String>)
    ensures
        match r {
            Some(v) => spec_detect_version(out@) == Some(v@),
            None => spec_detect_version(out@) is None,
        },
{
    if contains_str(out, "MariaDB") {
        return None;
    }
    parse_version(out)
}

/// The isolated MySQL prefix inside a snap, if confined.
pub open spec fn spec_snap_prefix(snap: Option<Seq<char>>) -> Option<Seq<char>> {
    match snap {
        Some(s) => Some(spec_join(s, "opt/klyra-mysql"@)),
        None => None,
    }
}

/// The isolated MySQL prefix inside a snap, if confined.
pub fn snap_prefix(snap: Option<&str>) -> (r: Option<String>)
    ensures
        match r {
            Some(p) => spec_snap_prefix(opt_view(snap)) == Some(p@),
            None => spec_snap_prefix(opt_view(snap)) is None,
        },
{
    match snap {
        Some(s) => Some(join(s, "opt/klyra-mysql")),
        None => None,
    }
}

/// Resolves a MySQL executable: the first of the `sbin`/`bin` candidates
/// (see [`spec_sbin_candidates`], with the snap's `opt/klyra-mysql` prefix and
/// the engines directory's `mysql` folder) that `is_file` accepts.
pub fn find_bin<F: Fn(&str) -> bool>(
    snap: Option<&str>,
    base: &str,
    name: &str,
    path_dirs: &Vec<String>,
    is_file: &F,
) -> (r: Option<String>)
    requires
        forall|s: &str| is_file.requires((s,)),
    ensures
        first_accepted(
            spec_sbin_candidates(
                opt_view(snap),
                "opt/klyra-mysql"@,
                base@,
                "mysql"@,
                name@,
                views_of(path_dirs@),
            ),
            *is_file,
            match r {
                Some(p) => Some(p@),
                None => None,
            },
        ),
{
    let c = sbin_candidates(snap, "opt/klyra-mysql", base, "mysql", name, path_dirs);
    first_present(&c, is_file)
}

/// The arguments that initialize an instance's data directory.
pub open spec fn spec_initialize_args(inst: Instance, snap: Option<Seq<char>>) -> Seq<Seq<char>> {
    let common = seq![
        "--no-defaults"@,
        "--initialize-insecure"@,
        "--user="@ + inst.user@,
        "--datadir="@ + inst.data_dir@,
    ];
    match spec_snap_prefix(snap) {
        Some(b) => common + seq![
            "--basedir="@ + b,
            "--plugin-dir="@ + b + "/lib/mysql/plugin"@,
            "--lc-messages-dir="@ + b + "/share/mysql"@,
        ],
        None => common,
    }
}

/// The arguments that initialize an instance's data directory: insecure (no
/// root password), never reading host configuration, and inside a snap
/// pointed at the isolated prefix.
pub fn initialize_args(inst: &Instance, snap: Option<&str>) -> (r: Vec<String>)
    ensures
        views_of(r@) == spec_initialize_args(*inst, opt_view(snap)),
{
    let mut args: Vec<String> = Vec::new();
    args.push("--no-defaults".to_owned());
    args.push("--initialize-insecure".to_owned());
    args.push(concat("--user=", inst.user.as_str()));
    args.push(concat("--datadir=", inst.data_dir.as_str()));
    if let Some(base) = snap_prefix(snap) {
        args.push(concat("--basedir=", base.as_str()));
        let mut p = concat("--plugin-dir=", base.as_str());
        p.append("/lib/mysql/plugin");
        args.push(p);
        let mut l = concat("--lc-messages-dir=", base.as_str());
        l.append("/share/mysql");
        args.push(l);
    }
    assert(views_of(args@) =~= spec_initialize_args(*inst, opt_view(snap)));
    args
}

/// The `[mysqld]` config for an instance.
pub open spec fn spec_render_conf(inst: Instance, snap: Option<Seq<char>>) -> Seq<char> {
    let main = "[mysqld]\ndatadir = "@ + inst.data_dir@ + "\nsocket = "@ + inst.data_dir@
        + "/mysql.sock"@ + "\nport = "@ + dec(inst.port as nat) + "\npid-file = "@ + inst.pid_file@
        + "\nlog-error = "@ + inst.log_file@ + "\nuser = "@ + inst.user@
        + "\nbind-address = 127.0.0.1\n"@;
    match spec_snap_prefix(snap) {
        Some(b) => main + "basedir = "@ + b + "\n"@ + "plugin-dir = "@ + b + "/lib/mysql/plugin\n"@
            + "lc-messages-dir = "@ + b + "/share/mysql\n"@,
        None => main,
    }
}

/// Renders the `[mysqld]` config for an instance, bound to loopback, with its
/// socket in the data directory and, inside a snap, the isolated prefix.
pub fn render_conf(inst: &Instance, snap: Option<&str>) -> (r: String)
    ensures
        r@ == spec_render_conf(*inst, opt_view(snap)),
{
    let mut s = "[mysqld]\ndatadir = ".to_owned();
    s.append(inst.data_dir.as_str());
    s.append("\nsocket = ");
    s.append(inst.data_dir.as_str());
    s.append("/mysql.sock");
    s.append("\nport = ");
    push_dec(&mut s, inst.port as u64);
    s.append("\npid-file = ");
    s.append(inst.pid_file.as_str());
    s.append("\nlog-error = ");
    s.append(inst.log_file.as_str());
    s.append("\nuser = ");
    s.append(inst.user.as_str());
    s.append("\nbind-address = 127.0.0.1\n");
    let ghost main = s@;
    if let Some(base) = snap_prefix(snap) {
        s.append("basedir = ");
        s.append(base.as_str());
        s.append("\n");
        s.append("plugin-dir = ");
        s.append(base.as_str());
        s.append("/lib/mysql/plugin\n");
        s.append("lc-messages-dir = ");
        s.append(base.as_str());
        s.append("/share/mysql\n");
    }
    assert(s@ =~= spec_render_conf(*inst, opt_view(snap)));
    s
}

/// How long a starting server is given to open its port, in seconds.
pub const START_TIMEOUT_SECS: u64 = 45;

/// The pause before each port probe while a server starts, in milliseconds.
pub const POLL_INTERVAL_MS: u64 = 500;

/// The arguments that point a server launcher at the instance's config.
pub fn defaults_args(inst: &Instance) -> (r: Vec<String>)
    ensures
        views_of(r@) == seq!["--defaults-file="@ + inst.conf_file@],
{
    let mut r: Vec<String> = Vec::new();
    r.push(concat("--defaults-file=", inst.conf_file.as_str()));
    assert(views_of(r@) =~= seq!["--defaults-file="@ + inst.conf_file@]);
    r
}

/// The arguments that start the server itself, daemonized, from the
/// instance's config (used when no launcher script is available).
pub fn daemon_args(inst: &Instance) -> (r: Vec<String>)
    ensures
        views_of(r@) == seq!["--defaults-file="@ + inst.conf_file@, "--daemonize"@],
{
    let mut r: Vec<String> = Vec::new();
    r.push(concat("--defaults-file=", inst.conf_file.as_str()));
    r.push("--daemonize".to_owned());
    assert(views_of(r@) =~= seq!["--defaults-file="@ + inst.conf_file@, "--daemonize"@]);
    r
}

/// The admin-tool arguments that shut the server down as root over the
/// socket `sock_name` in the instance's data directory.
pub fn shutdown_args(inst: &Instance, sock_name: &str) -> (r: Vec<String>)
    ensures
        views_of(r@) == seq![
            "-u"@,
            "root"@,
            "--socket="@ + spec_join(inst.data_dir@, sock_name@),
            "shutdown"@,
        ],
{
    let mut r: Vec<String> = Vec::new();
    r.push("-u".to_owned());
    r.push("root".to_owned());
    let sock = join(inst.data_dir.as_str(), sock_name);
    r.push(concat("--socket=", sock.as_str()));
    r.push("shutdown".to_owned());
    assert(views_of(r@) =~= seq![
        "-u"@,
        "root"@,
        "--socket="@ + spec_join(inst.data_dir@, sock_name@),
        "shutdown"@,
    ]);
    r
}

/// The server daemon.
pub const DAEMON: &'static str = "mysqld";

/// The launcher script tried before the daemon.
pub const LAUNCHER: &'static str = "mysqld_safe";

/// The admin tool used for shutdown.
pub const ADMIN: &'static str = "mysqladmin";

/// The server's socket in the data directory.
pub const SOCKET: &'static str = "mysql.sock";

/// How a failed data-directory initialization is named in its error.
pub const INIT_STEP: &'static str = "mysql initialize";

/// How a failed daemon launch is named in its error.
pub const START_STEP: &'static str = "mysqld start";

/// How a server that is late to open its port is named.
pub const READY_LABEL: &'static str = "mysql";

/// The process named when no shutdown path reached it.
pub const PROCESS: &'static str = "mysqld";

} // verus!
