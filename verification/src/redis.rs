//! Redis and Valkey engines.
//!
//! Valkey is the BSD-licensed fork of Redis and is wire- and config-compatible,
//! so both are described by one [`RespEngine`] parameterised by the binary
//! names and engine identity. The server is started daemonized from a
//! generated config file.

use vstd::prelude::*;
use vstd::string::*;
use crate::engine::paths::views_of;
use crate::engine::{detected_versions, is_family_version, opt_str, DbType, Instance, Version};
use crate::text::{chars_of, dec, first_with_prefix, lemma_first_with_prefix, push_dec, split_words, strip_first_prefix, string_of, words};
use crate::versions::spec_families;

verus! {

/// A Redis-protocol engine (Redis or Valkey).
pub struct RespEngine {
    pub db: DbType,
    pub server_bin: &'static str,
    pub cli_bin: &'static str,
    pub subdir: &'static str,
    pub label: &'static str,
}

impl RespEngine {
    /// The Redis engine.
    pub fn redis() -> (r: RespEngine)
        ensures
            r.db == DbType::Redis,
            r.server_bin@ == "redis-server"@,
            r.cli_bin@ == "redis-cli"@,
            r.subdir@ == "redis"@,
            r.label@ == "Redis"@,
    {
        RespEngine {
            db: DbType::Redis,
            server_bin: "redis-server",
            cli_bin: "redis-cli",
            subdir: "redis",
            label: "Redis",
        }
    }

    /// The Valkey engine.
    pub fn valkey() -> (r: RespEngine)
        ensures
            r.db == DbType::Valkey,
            r.server_bin@ == "valkey-server"@,
            r.cli_bin@ == "valkey-cli"@,
            r.subdir@ == "valkey"@,
            r.label@ == "Valkey"@,
    {
        RespEngine {
            db: DbType::Valkey,
            server_bin: "valkey-server",
            cli_bin: "valkey-cli",
            subdir: "valkey",
            label: "Valkey",
        }
    }

    /// The engine kind this engine manages.
    pub fn db_type(&self) -> (r: DbType)
        ensures
            r == self.db,
    {
        self.db
    }

    /// One record per bundled family, given the version the installed server
    /// reports (if one was found) and the directory holding it.
    pub fn versions(&self, installed: Option<&str>, bin_dir: &str) -> (r: Vec<Version>)
        ensures
            r@.len() == spec_families(self.db).len(),
            forall|i: int|
                0 <= i < r@.len() ==> is_family_version(
                    #[trigger] r@[i],
                    self.db,
                    self.label@,
                    spec_families(self.db)[i],
                    opt_str(installed),
                    bin_dir@,
                ),
    {
        detected_versions(self.db, self.label, installed, bin_dir)
    }
}

/// The daemonized server config for an instance.
pub open spec fn spec_render_conf(inst: Instance) -> Seq<char> {
    "port "@ + dec(inst.port as nat) + "\nbind 127.0.0.1\ndaemonize yes\npidfile "@ + inst.pid_file@
        + "\nlogfile "@ + inst.log_file@ + "\ndir "@ + inst.data_dir@ + "\nsave \"\"\n"@
}

/// Renders the daemonized server config for an instance: bound to loopback,
/// persistence disabled, every path pointing at the instance's own files.
pub fn render_conf(inst: &Instance) -> (r: String)
    ensures
        r@ == spec_render_conf(*inst),
{
    let mut s = "port ".to_owned();
    push_dec(&mut s, inst.port as u64);
    s.append("\nbind 127.0.0.1\ndaemonize yes\npidfile ");
    s.append(inst.pid_file.as_str());
    s.append("\nlogfile ");
    s.append(inst.log_file.as_str());
    s.append("\ndir ");
    s.append(inst.data_dir.as_str());
    s.append("\nsave \"\"\n");
    assert(s@ =~= spec_render_conf(*inst));
    s
}

/// The version a `--version` line reports: the rest of its first
/// whitespace-separated field that begins with `v=`.
pub open spec fn spec_parse_version(out: Seq<char>) -> Option<Seq<char>> {
    first_with_prefix(words(out), "v="@)
}

/// A `--version` line reports `v` exactly when its first word that begins
/// with `v=` reads `v=` followed by `v` (`Redis server v=7.4.0 sha=…` reports
/// `7.4.0`); a line with no such word reports nothing.
pub proof fn law_version_from_v_word(out: Seq<char>)
    ensures
        spec_parse_version(out) matches Some(v) ==> exists|k: int|
            0 <= k < words(out).len() && #[trigger] words(out)[k] == "v="@ + v && forall|j: int|
                0 <= j < k ==> !(2 <= words(out)[j].len() && (#[trigger] words(out)[j]).take(2) == "v="@),
        spec_parse_version(out) is None <==> forall|k: int|
            0 <= k < words(out).len() ==> !(2 <= words(out)[k].len() && (#[trigger] words(out)[k]).take(2) == "v="@),
{
    reveal_strlit("v=");
    lemma_first_with_prefix(words(out), "v="@);
}

/// Parses a Redis/Valkey `--version` line, e.g. `… server v=7.4.0 sha=…`.
pub fn parse_version(out: &str) -> (r: Option<String>)
    ensures
        match r {
            Some(v) => spec_parse_version(out@) == Some(v@),
            None => spec_parse_version(out@) is None,
        },
{
    let ws = split_words(&chars_of(out));
    match strip_first_prefix(&ws, "v=") {
        Some(v) => Some(string_of(&v)),
        None => None,
    }
}

/// How long a starting server is given to open its port, in seconds.
pub const START_TIMEOUT_SECS: u64 = 15;

/// The pause before each port probe while a server starts, in milliseconds.
pub const POLL_INTERVAL_MS: u64 = 200;

impl RespEngine {
    /// The refusal when the server binary cannot be found at create time.
    pub fn not_found(&self) -> (r: String)
        ensures
            r@ == self.server_bin@ + " not found — install it to create this instance"@,
    {
        let mut m = self.server_bin.to_owned();
        m.append(" not found — install it to create this instance");
        m
    }
}

/// The arguments that start the server daemonized from the instance's config.
pub fn start_args(inst: &Instance) -> (r: Vec<String>)
    ensures
        views_of(r@) == seq![inst.conf_file@],
{
    let mut r: Vec<String> = Vec::new();
    r.push(inst.conf_file.clone());
    assert(views_of(r@) =~= seq![inst.conf_file@]);
    r
}

/// The CLI arguments that shut the server on the instance's port down
/// without saving.
pub fn shutdown_args(inst: &Instance) -> (r: Vec<String>)
    ensures
        views_of(r@) == seq!["-p"@, dec(inst.port as nat), "shutdown"@, "nosave"@],
{
    let mut r: Vec<String> = Vec::new();
    r.push("-p".to_owned());
    let mut p = String::new();
    push_dec(&mut p, inst.port as u64);
    r.push(p);
    r.push("shutdown".to_owned());
    r.push("nosave".to_owned());
    assert(views_of(r@) =~= seq!["-p"@, dec(inst.port as nat), "shutdown"@, "nosave"@]);
    r
}

/// The process named when no shutdown path reached the server.
pub const PROCESS: &'static str = "the server process";

} // verus!
