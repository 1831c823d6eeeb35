//! MongoDB engine.
//!
//! `mongod` is started forked from a generated YAML config bound to loopback.

use vstd::prelude::*;
use vstd::string::*;
use crate::engine::paths::views_of;
use crate::engine::{detected_versions, is_family_version, opt_str, DbType, Instance, Version};
use crate::text::{chars_of, dec, first_with_prefix, lemma_first_with_prefix, pieces, push_dec, split_on, string_of, strip_first_prefix, trim, trim_chars, views};
use crate::versions::spec_families;

verus! {

/// The MongoDB engine.
pub struct MongoEngine;

impl MongoEngine {
    /// Builds the MongoDB engine.
    pub fn new() -> MongoEngine {
        MongoEngine
    }

    /// The engine kind this engine manages.
    pub fn db_type(&self) -> (r: DbType)
        ensures
            r == DbType::Mongodb,
    {
        DbType::Mongodb
    }

    /// One record per bundled family, given the version the installed server
    /// reports (if one was found) and the directory holding it.
    pub fn versions(&self, installed: Option<&str>, bin_dir: &str) -> (r: Vec<Version>)
        ensures
            r@.len() == spec_families(DbType::Mongodb).len(),
            forall|i: int|
                0 <= i < r@.len() ==> is_family_version(
                    #[trigger] r@[i],
                    DbType::Mongodb,
                    "MongoDB"@,
                    spec_families(DbType::Mongodb)[i],
                    opt_str(installed),
                    bin_dir@,
                ),
    {
        detected_versions(DbType::Mongodb, "MongoDB", installed, bin_dir)
    }
}

/// The forked-server YAML config for an instance.
pub open spec fn spec_render_conf(inst: Instance) -> Seq<char> {
    "storage:\n  dbPath: "@ + inst.data_dir@ + "\nsystemLog:\n  destination: file\n  path: "@
        + inst.log_file@ + "\n  logAppend: true\nnet:\n  port: "@ + dec(inst.port as nat)
        + "\n  bindIp: 127.0.0.1\nprocessManagement:\n  fork: true\n  pidFilePath: "@
        + inst.pid_file@ + "\n"@
}

/// Renders the forked-server YAML config for an instance, bound to loopback
/// and pointing at the instance's own files.
pub fn render_conf(inst: &Instance) -> (r: String)
    ensures
        r@ == spec_render_conf(*inst),
{
    let mut s = "storage:\n  dbPath: ".to_owned();
    s.append(inst.data_dir.as_str());
    s.append("\nsystemLog:\n  destination: file\n  path: ");
    s.append(inst.log_file.as_str());
    s.append("\n  logAppend: true\nnet:\n  port: ");
    push_dec(&mut s, inst.port as u64);
    s.append("\n  bindIp: 127.0.0.1\nprocessManagement:\n  fork: true\n  pidFilePath: ");
    s.append(inst.pid_file.as_str());
    s.append("\n");
    assert(s@ =~= spec_render_conf(*inst));
    s
}

/// The trimmed lines of a text (each `\n`-separated piece, trimmed).
pub open spec fn trimmed_lines(out: Seq<char>) -> Seq<Seq<char>> {
    pieces(out, '\n').map_values(|l: Seq<char>| trim(l))
}

/// The version a `mongod --version` block reports: the rest of its first
/// line that reads `db version v…` once trimmed.
pub open spec fn spec_parse_version(out: Seq<char>) -> Option<Seq<char>> {
    first_with_prefix(trimmed_lines(out), "db version v"@)
}

/// A `mongod --version` block reports `v` exactly when its first line that,
/// trimmed, begins with `db version v` reads `db version v` followed by `v`
/// once trimmed (`db version v8.0.4` reports `8.0.4`); a block with no such
/// line reports nothing.
pub proof fn law_version_from_db_version_line(out: Seq<char>)
    ensures
        spec_parse_version(out) matches Some(v) ==> exists|k: int|
            0 <= k < trimmed_lines(out).len() && #[trigger] trimmed_lines(out)[k] == "db version v"@ + v
                && forall|j: int|
                0 <= j < k ==> !(12 <= trimmed_lines(out)[j].len() && (#[trigger] trimmed_lines(out)[j]).take(12)
                    == "db version v"@),
        spec_parse_version(out) is None <==> forall|k: int|
            0 <= k < trimmed_lines(out).len() ==> !(12 <= trimmed_lines(out)[k].len() && (
            #[trigger] trimmed_lines(out)[k]).take(12) == "db version v"@),
{
    reveal_strlit("db version v");
    lemma_first_with_prefix(trimmed_lines(out), "db version v"@);
}

/// Parses a `mongod --version` block, whose first line is `db version vX.Y.Z`.
pub fn parse_version(out: &str) -> (r: Option<String>)
    ensures
        match r {
            Some(v) => spec_parse_version(out@) == Some(v@),
            None => spec_parse_version(out@) is None,
        },
{
    let lines = split_on(&chars_of(out), '\n');
    let mut trimmed: Vec<Vec<char>> = Vec::new();
    let mut i: usize = 0;
    while i < lines.len()
        invariant
            i <= lines.len(),
            views(lines@) == pieces(out@, '\n'),
            views(trimmed@) == views(lines@).take(i as int).map_values(|l: Seq<char>| trim(l)),
        decreases lines.len() - i,
    {
        let t = trim_chars(&lines[i]);
        let ghost prev = views(trimmed@);
        trimmed.push(t);
        proof {
            assert(views(lines@).take(i + 1) =~= views(lines@).take(i as int).push(lines@[i as int]@));
            assert(views(trimmed@) =~= prev.push(trim(lines@[i as int]@)));
            assert(views(trimmed@) =~= views(lines@).take(i + 1).map_values(|l: Seq<char>| trim(l)));
        }
        i = i + 1;
    }
    assert(views(lines@).take(lines.len() as int) =~= views(lines@));
    match strip_first_prefix(&trimmed, "db version v") {
        Some(v) => Some(string_of(&v)),
        None => None,
    }
}

/// How long a starting server is given to open its port, in seconds.
pub const START_TIMEOUT_SECS: u64 = 30;

/// The pause before each port probe while a server starts, in milliseconds.
pub const POLL_INTERVAL_MS: u64 = 300;

/// The refusal when `mongod` cannot be found at create time.
pub const NOT_FOUND: &'static str = "mongod not found — install it to create this instance";

/// The arguments that start `mongod` forked from the instance's config.
pub fn start_args(inst: &Instance) -> (r: Vec<String>)
    ensures
        views_of(r@) == seq!["--config"@, inst.conf_file@],
{
    let mut r: Vec<String> = Vec::new();
    r.push("--config".to_owned());
    r.push(inst.conf_file.clone());
    assert(views_of(r@) =~= seq!["--config"@, inst.conf_file@]);
    r
}

/// The shell arguments that ask the server on the instance's port to shut
/// down through an admin command.
pub fn shutdown_args(inst: &Instance) -> (r: Vec<String>)
    ensures
        views_of(r@) == seq![
            "--port"@,
            dec(inst.port as nat),
            "--eval"@,
            "db.adminCommand({shutdown:1})"@,
            "admin"@,
        ],
{
    let mut r: Vec<String> = Vec::new();
    r.push("--port".to_owned());
    let mut p = String::new();
    push_dec(&mut p, inst.port as u64);
    r.push(p);
    r.push("--eval".to_owned());
    r.push("db.adminCommand({shutdown:1})".to_owned());
    r.push("admin".to_owned());
    assert(views_of(r@) =~= seq![
        "--port"@,
        dec(inst.port as nat),
        "--eval"@,
        "db.adminCommand({shutdown:1})"@,
        "admin"@,
    ]);
    r
}

/// The engines-directory folder the MongoDB binaries are looked up under.
pub const SUBDIR: &'static str = "mongodb";

/// The server daemon, which also names a late or unreachable server.
pub const SERVER: &'static str = "mongod";

/// The shells tried, in order, to ask the server to shut down.
pub const SHELLS: [&'static str; 2] = ["mongosh", "mongo"];

} // verus!
