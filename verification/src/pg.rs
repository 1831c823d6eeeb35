//! PostgreSQL engine.
//!
//! Postgres ships one binary tree per major version (`.../<major>/bin`), so
//! installs are discovered by scanning the conventional locations for a
//! `pg_ctl`. The scan itself is the caller's; this module holds what is
//! decided from its findings.

use vstd::prelude::*;
use vstd::string::*;
use crate::engine::paths::{engines_dir, join, opt_view, spec_join, views_of};
use crate::engine::tooling::ToolCall;
use crate::engine::{DbType, EngineError, Instance, Version};
use crate::text::{chars_of, dec, push_dec, split_words, string_of, views, words};
use crate::versions::{families, spec_families, str_views};

verus! {

/// The PostgreSQL engine.
pub struct PgEngine;

/// An installed major version found by the scan: the directory's name (the
/// major), its `bin` directory, and what `<bin>/postgres --version` printed
/// (`None` when it could not be run).
#[derive(Clone, Debug, PartialEq, Eq)]
pub struct PgInstall {
    pub major: String,
    pub bin_dir: String,
    pub version_output: Option<String>,
}

/// The position of the first install of `major` in the scan's findings, if any.
pub open spec fn lookup(found: Seq<PgInstall>, major: Seq<char>) -> Option<int> {
    if exists|i: int| 0 <= i < found.len() && found[i].major@ == major {
        Some(
            choose|i: int|
                0 <= i < found.len() && found[i].major@ == major && forall|j: int|
                    0 <= j < i ==> found[j].major@ != major,
        )
    } else {
        None
    }
}

/// The install used for a major is the first the scan found for it: with the
/// scan's findings in search-root order, an install under the user's engines
/// directory wins over one under the system trees; a major the scan did not
/// find has no install.
pub proof fn law_first_install_wins(found: Seq<PgInstall>, major: Seq<char>, k: int)
    requires
        0 <= k < found.len(),
        found[k].major@ == major,
        forall|j: int| 0 <= j < k ==> (#[trigger] found[j]).major@ != major,
    ensures
        lookup(found, major) == Some(k),
{
    let w = choose|i: int|
        0 <= i < found.len() && found[i].major@ == major && forall|j: int|
            0 <= j < i ==> found[j].major@ != major;
    assert(w == k) by {
        if w < k {
            assert(found[w].major@ != major);
        } else if w > k {
            assert(found[k].major@ != major);
        }
    }
}

/// A major that none of the findings names has no install.
pub proof fn law_unfound_major_not_installed(found: Seq<PgInstall>, major: Seq<char>)
    requires
        forall|j: int| 0 <= j < found.len() ==> (#[trigger] found[j]).major@ != major,
    ensures
        lookup(found, major) is None,
{
}

/// The version `postgres --version` reports: its last whitespace-separated field.
pub open spec fn spec_detect_version(out: Seq<char>) -> Option<Seq<char>> {
    if words(out).len() > 0 {
        Some(words(out).last())
    } else {
        None
    }
}

/// The version reported in an install's `--version` output, or empty.
pub open spec fn reported(i: PgInstall) -> Seq<char> {
    match i.version_output {
        Some(o) => match spec_detect_version(o@) {
            Some(v) => v,
            None => Seq::empty(),
        },
        None => Seq::empty(),
    }
}

/// `v` is the record offered for the family `major`, given the scan's findings.
pub open spec fn is_pg_version(v: Version, major: Seq<char>, found: Seq<PgInstall>) -> bool {
    &&& v.db_type == DbType::Postgres
    &&& v.major@ == major
    &&& v.label@ == "PostgreSQL "@ + major
    &&& v.latest_patch@ == major
    &&& match lookup(found, major) {
        Some(i) => {
            &&& v.installed
            &&& v.bin_path@ == found[i].bin_dir@
            &&& v.installed_version@ == reported(found[i])
        },
        None => {
            &&& !v.installed
            &&& v.bin_path@ == Seq::<char>::empty()
            &&& v.installed_version@ == Seq::<char>::empty()
        },
    }
}

/// The first install of `major` among the findings, if any.
fn find_install(found: &Vec<PgInstall>, major: &str) -> (r: Option<usize>)
    ensures
        match r {
            Some(i) => lookup(found@, major@) == Some(i as int) && i < found@.len(),
            None => lookup(found@, major@) is None,
        },
{
    let mut i: usize = 0;
    while i < found.len()
        invariant
            i <= found.len(),
            forall|j: int| 0 <= j < i ==> found@[j].major@ != major@,
        decreases found.len() - i,
    {
        if crate::text::compare(found[i].major.as_str(), major) == crate::text::Order::Equal {
            let ghost w = choose|k: int|
                0 <= k < found@.len() && found@[k].major@ == major@ && forall|j: int|
                    0 <= j < k ==> found@[j].major@ != major@;
            assert(0 <= i < found@.len() && found@[i as int].major@ == major@ && forall|j: int|
                0 <= j < i ==> found@[j].major@ != major@);
            assert(w == i) by {
                if w < i {
                } else if w > i {
                }
            }
            return Some(i);
        }
        i = i + 1;
    }
    None
}

/// Parses the version from `postgres --version` output (its last field).
pub fn detect_version(out: &str) -> (r: Option<String>)
    ensures
        match r {
            Some(v) => spec_detect_version(out@) == Some(v@),
            None => spec_detect_version(out@) is None,
        },
{
    let ws = split_words(&chars_of(out));
    if ws.len() == 0 {
        return None;
    }
    let last = &ws[ws.len() - 1];
    assert(views(ws@).last() == last@);
    Some(string_of(last))
}

impl PgEngine {
    /// Builds the PostgreSQL engine.
    pub fn new() -> PgEngine {
        PgEngine
    }

    /// The engine kind this engine manages.
    pub fn db_type(&self) -> (r: DbType)
        ensures
            r == DbType::Postgres,
    {
        DbType::Postgres
    }

    /// One record per bundled family, newest first, given the installs the
    /// scan found (in scan order; the first install of a major wins).
    pub fn versions(&self, found: &Vec<PgInstall>) -> (r: Vec<Version>)
        ensures
            r@.len() == spec_families(DbType::Postgres).len(),
            forall|i: int|
                0 <= i < r@.len() ==> is_pg_version(
                    #[trigger] r@[i],
                    spec_families(DbType::Postgres)[i],
                    found@,
                ),
    {
        let fams = families(DbType::Postgres);
        let mut r: Vec<Version> = Vec::new();
        let mut k: usize = 0;
        while k < fams.len()
            invariant
                k <= fams.len(),
                str_views(fams@) == spec_families(DbType::Postgres),
                r@.len() == k,
                forall|i: int|
                    0 <= i < k ==> is_pg_version(
                        #[trigger] r@[i],
                        spec_families(DbType::Postgres)[i],
                        found@,
                    ),
            decreases fams.len() - k,
        {
            let major = fams[k];
            assert(spec_families(DbType::Postgres)[k as int] == major@);
            let mut label = "PostgreSQL ".to_owned();
            label.append(major);
            let v = match find_install(found, major) {
                Some(i) => {
                    let installed_version = match &found[i].version_output {
                        Some(o) => match detect_version(o.as_str()) {
                            Some(v) => v,
                            None => String::new(),
                        },
                        None => String::new(),
                    };
                    Version {
                        db_type: DbType::Postgres,
                        major: major.to_owned(),
                        bin_path: found[i].bin_dir.clone(),
                        installed: true,
                        label,
                        latest_patch: major.to_owned(),
                        installed_version,
                    }
                },
                None => Version {
                    db_type: DbType::Postgres,
                    major: major.to_owned(),
                    bin_path: String::new(),
                    installed: false,
                    label,
                    latest_patch: major.to_owned(),
                    installed_version: String::new(),
                },
            };
            r.push(v);
            k = k + 1;
        }
        r
    }

    /// The `bin` directory of an installed major, or
    /// [`EngineError::NotInstalled`] naming the missing major.
    pub fn bin_for(&self, found: &Vec<PgInstall>, major: &str) -> (r: Result<String, EngineError>)
        ensures
            match lookup(found@, major@) {
                Some(i) => r matches Ok(b) && b@ == found@[i].bin_dir@,
                None => r matches Err(EngineError::NotInstalled(m)) && m@ == "PostgreSQL "@ + major@
                    + " is not installed"@,
            },
    {
        match find_install(found, major) {
            Some(i) => Ok(found[i].bin_dir.clone()),
            None => {
                let mut m = "PostgreSQL ".to_owned();
                m.append(major);
                m.append(" is not installed");
                Err(EngineError::NotInstalled(m))
            },
        }
    }
}

/// The directories scanned for `<major>/bin/pg_ctl`, in order: the snap's
/// bundle when confined, otherwise the user's engines directory and the
/// system trees.
pub open spec fn spec_search_roots(snap: Option<Seq<char>>, base: Seq<char>) -> Seq<Seq<char>> {
    match snap {
        Some(s) => seq![spec_join(s, "usr/lib/postgresql"@)],
        None => seq![
            spec_join(spec_join(base, "engines"@), "pg"@),
            "/usr/lib/postgresql"@,
            "/opt/postgresql"@,
        ],
    }
}

/// Inside a snap only its bundled tree is scanned; outside, the user's
/// engines directory comes first, then `/usr/lib/postgresql`, then
/// `/opt/postgresql`.
pub proof fn law_search_root_order(snap: Option<Seq<char>>, base: Seq<char>)
    ensures
        snap matches Some(s) ==> spec_search_roots(snap, base) =~= seq![spec_join(s, "usr/lib/postgresql"@)],
        snap is None ==> spec_search_roots(snap, base).len() == 3
            && spec_search_roots(snap, base)[0] == spec_join(spec_join(base, "engines"@), "pg"@)
            && spec_search_roots(snap, base)[1] == "/usr/lib/postgresql"@
            && spec_search_roots(snap, base)[2] == "/opt/postgresql"@,
{
}

/// The directories scanned for installed majors (see [`spec_search_roots`]).
pub fn search_roots(snap: Option<&str>, base: &str) -> (r: Vec<String>)
    ensures
        views_of(r@) == spec_search_roots(opt_view(snap), base@),
{
    let mut r: Vec<String> = Vec::new();
    match snap {
        Some(s) => {
            r.push(join(s, "usr/lib/postgresql"));
        },
        None => {
            let e = engines_dir(base);
            r.push(join(e.as_str(), "pg"));
            r.push("/usr/lib/postgresql".to_owned());
            r.push("/opt/postgresql".to_owned());
        },
    }
    assert(views_of(r@) =~= spec_search_roots(opt_view(snap), base@));
    r
}

/// How long a starting server is given to open its port, in seconds.
pub const START_TIMEOUT_SECS: u64 = 15;

/// The pause between port probes while a server starts, in milliseconds.
pub const POLL_INTERVAL_MS: u64 = 200;

/// The `initdb` call that initializes an instance's data directory under the
/// instance's user, with trust authentication on loopback and UTF-8 encoding.
pub fn initdb_call(bin: &str, inst: &Instance) -> (c: ToolCall)
    ensures
        c.program@ == spec_join(bin@, "initdb"@),
        views_of(c.args@) == seq![
            "-D"@,
            inst.data_dir@,
            "-U"@,
            inst.user@,
            "--auth=trust"@,
            "--encoding=UTF8"@,
        ],
{
    let mut args: Vec<String> = Vec::new();
    args.push("-D".to_owned());
    args.push(inst.data_dir.clone());
    args.push("-U".to_owned());
    args.push(inst.user.clone());
    args.push("--auth=trust".to_owned());
    args.push("--encoding=UTF8".to_owned());
    let c = ToolCall { program: join(bin, "initdb"), args };
    assert(views_of(c.args@) =~= seq![
        "-D"@,
        inst.data_dir@,
        "-U"@,
        inst.user@,
        "--auth=trust"@,
        "--encoding=UTF8"@,
    ]);
    c
}

/// The server options `pg_ctl` hands to postgres: the instance's port, and
/// its data directory as the socket directory.
pub open spec fn spec_server_options(inst: Instance) -> Seq<char> {
    "-p "@ + dec(inst.port as nat) + " -k "@ + inst.data_dir@
}

/// The `pg_ctl start` call for an instance, logging to its log file.
pub fn start_call(bin: &str, inst: &Instance) -> (c: ToolCall)
    ensures
        c.program@ == spec_join(bin@, "pg_ctl"@),
        views_of(c.args@) == seq![
            "-D"@,
            inst.data_dir@,
            "-l"@,
            inst.log_file@,
            "-o"@,
            spec_server_options(*inst),
            "start"@,
        ],
{
    let mut opts = "-p ".to_owned();
    push_dec(&mut opts, inst.port as u64);
    opts.append(" -k ");
    opts.append(inst.data_dir.as_str());
    let mut args: Vec<String> = Vec::new();
    args.push("-D".to_owned());
    args.push(inst.data_dir.clone());
    args.push("-l".to_owned());
    args.push(inst.log_file.clone());
    args.push("-o".to_owned());
    args.push(opts);
    args.push("start".to_owned());
    let c = ToolCall { program: join(bin, "pg_ctl"), args };
    assert(views_of(c.args@) =~= seq![
        "-D"@,
        inst.data_dir@,
        "-l"@,
        inst.log_file@,
        "-o"@,
        spec_server_options(*inst),
        "start"@,
    ]);
    c
}

/// The `pg_ctl stop` call for an instance, in fast shutdown mode.
pub fn stop_call(bin: &str, inst: &Instance) -> (c: ToolCall)
    ensures
        c.program@ == spec_join(bin@, "pg_ctl"@),
        views_of(c.args@) == seq!["-D"@, inst.data_dir@, "-m"@, "fast"@, "stop"@],
{
    let mut args: Vec<String> = Vec::new();
    args.push("-D".to_owned());
    args.push(inst.data_dir.clone());
    args.push("-m".to_owned());
    args.push("fast".to_owned());
    args.push("stop".to_owned());
    let c = ToolCall { program: join(bin, "pg_ctl"), args };
    assert(views_of(c.args@) =~= seq!["-D"@, inst.data_dir@, "-m"@, "fast"@, "stop"@]);
    c
}

/// Where the server keeps its pid: `postmaster.pid` in the data directory.
pub fn postmaster_pid(inst: &Instance) -> (r: String)
    ensures
        r@ == spec_join(inst.data_dir@, "postmaster.pid"@),
{
    join(inst.data_dir.as_str(), "postmaster.pid")
}

/// How a failed `initdb` run is named in its error.
pub const INITDB_STEP: &'static str = "initdb";

/// How a failed `pg_ctl start` run is named in its error.
pub const START_STEP: &'static str = "pg_ctl start";

/// How a failed `pg_ctl stop` run is named in its error.
pub const STOP_STEP: &'static str = "pg_ctl stop";

/// How a server that is late to open its port is named.
pub const READY_LABEL: &'static str = "postgres";

} // verus!
