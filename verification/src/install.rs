//! On-demand engine installation planning.
//!
//! Engines are installed through the host's package manager — `apt-get` via
//! `pkexec` on Linux, Homebrew on macOS. This module decides whether an install
//! is possible and which command performs it; running the command and
//! streaming its output is the caller's part.

use vstd::prelude::*;
use vstd::string::*;
use crate::engine::DbType;

verus! {

/// Why MongoDB cannot be installed on Linux by this application.
pub const MONGODB_BLOCKED: &'static str = "MongoDB on Linux is not installable from klyradb. The package \"mongodb\" was removed from Debian and Ubuntu years ago; MongoDB Inc. distributes the official server as \"mongodb-org\" from repo.mongodb.org, a repository klyradb does not configure. To use MongoDB on Linux today: either add the official MongoDB APT repository to your system (https://www.mongodb.com/docs/manual/installation/), or wait for the verified download path in the upcoming rewrite.";

/// The refusal given inside a snap, where the host package manager is out of reach.
pub const SNAP_REFUSAL: &'static str = "inside a snap, engines must come from the host — install it with your package manager";

/// The refusal given on a platform without a supported package manager.
pub const UNSUPPORTED_PLATFORM: &'static str = "automatic install is not supported on this platform";

/// The platform the installer runs on, as far as package managers go.
#[derive(Clone, Copy, Debug, PartialEq, Eq, Structural)]
pub enum Platform {
    Linux,
    MacOs,
    Other,
}

/// A package-manager invocation: the program and its arguments.
#[derive(Clone, Debug, PartialEq, Eq)]
pub struct InstallCommand {
    pub program: String,
    pub args: Vec<String>,
}

/// The views of a sequence of strings.
pub open spec fn string_views(s: Seq<String>) -> Seq<Seq<char>> {
    s.map_values(|x: String| x@)
}

/// The host package that provides an engine family.
pub open spec fn spec_package_name(db: DbType, version: Seq<char>) -> Seq<char> {
    match db {
        DbType::Postgres => "postgresql-"@ + version,
        DbType::Mysql => "mysql-server"@,
        DbType::Mariadb => "mariadb-server"@,
        DbType::Redis => "redis-server"@,
        DbType::Valkey => "valkey"@,
        DbType::Mongodb => "mongodb-org"@,
    }
}

/// Why installation is impossible for an engine, if it is.
pub open spec fn spec_blocked_reason(db: DbType) -> Option<Seq<char>> {
    match db {
        DbType::Mongodb => Some(MONGODB_BLOCKED@),
        _ => None,
    }
}

/// The package-manager invocation for `pkg` on `platform`.
pub open spec fn spec_install_command(pkg: Seq<char>, platform: Platform) -> Result<
    (Seq<char>, Seq<Seq<char>>),
    Seq<char>,
> {
    match platform {
        Platform::Linux => Ok(("pkexec"@, seq!["apt-get"@, "install"@, "-y"@, pkg])),
        Platform::MacOs => Ok(("brew"@, seq!["install"@, pkg])),
        Platform::Other => Err(UNSUPPORTED_PLATFORM@),
    }
}

/// The outcome of planning an install: the command to run, or the reason given.
pub open spec fn spec_install(db: DbType, version: Seq<char>, in_snap: bool, platform: Platform) -> Result<
    (Seq<char>, Seq<Seq<char>>),
    Seq<char>,
> {
    if spec_blocked_reason(db) is Some {
        Err(spec_blocked_reason(db)->0)
    } else if in_snap {
        Err(SNAP_REFUSAL@)
    } else {
        spec_install_command(spec_package_name(db, version), platform)
    }
}

/// What an [`InstallCommand`] result stands for.
pub open spec fn command_view(r: Result<InstallCommand, String>) -> Result<
    (Seq<char>, Seq<Seq<char>>),
    Seq<char>,
> {
    match r {
        Ok(c) => Ok((c.program@, string_views(c.args@))),
        Err(m) => Err(m@),
    }
}

/// The host package that provides an engine family. Postgres is the only
/// engine whose package is version-specific; the others install a single
/// server package regardless of the requested family.
pub fn package_name(db: DbType, version: &str) -> (r: String)
    ensures
        r@ == spec_package_name(db, version@),
{
    match db {
        DbType::Postgres => {
            let mut s = "postgresql-".to_owned();
            s.append(version);
            s
        },
        DbType::Mysql => "mysql-server".to_owned(),
        DbType::Mariadb => "mariadb-server".to_owned(),
        DbType::Redis => "redis-server".to_owned(),
        DbType::Valkey => "valkey".to_owned(),
        DbType::Mongodb => "mongodb-org".to_owned(),
    }
}

/// A user-facing explanation of why installation is impossible for the given
/// engine, or `None` if installation is supported: only MongoDB, whose server
/// the host package managers no longer ship, is blocked.
pub fn blocked_reason(db: DbType, version: &str) -> (r: Option<String>)
    ensures
        r matches Some(m) ==> spec_blocked_reason(db) == Some(m@),
        r is None <==> spec_blocked_reason(db) is None,
        r is Some <==> db == DbType::Mongodb,
{
    match db {
        DbType::Mongodb => Some(MONGODB_BLOCKED.to_owned()),
        _ => None,
    }
}

/// The package-manager invocation for `pkg` on `platform`.
pub fn install_command(pkg: &str, platform: Platform) -> (r: Result<InstallCommand, String>)
    ensures
        command_view(r) == spec_install_command(pkg@, platform),
{
    match platform {
        Platform::Linux => {
            let mut args: Vec<String> = Vec::new();
            args.push("apt-get".to_owned());
            args.push("install".to_owned());
            args.push("-y".to_owned());
            args.push(pkg.to_owned());
            let r = InstallCommand { program: "pkexec".to_owned(), args };
            assert(string_views(r.args@) =~= seq!["apt-get"@, "install"@, "-y"@, pkg@]);
            Ok(r)
        },
        Platform::MacOs => {
            let mut args: Vec<String> = Vec::new();
            args.push("install".to_owned());
            args.push(pkg.to_owned());
            let r = InstallCommand { program: "brew".to_owned(), args };
            assert(string_views(r.args@) =~= seq!["install"@, pkg@]);
            Ok(r)
        },
        Platform::Other => Err(UNSUPPORTED_PLATFORM.to_owned()),
    }
}

/// Decides how to install the engine package for `db`/`version`: the
/// command to run, or the message explaining why installation is refused.
///
/// The blocked-engine check comes first, so a blocked engine is explained by
/// its own reason both inside and outside a snap; every other engine is
/// refused inside a snap, and on platforms without a supported package manager.
pub fn install(db: DbType, version: &str, in_snap: bool, platform: Platform) -> (r: Result<
    InstallCommand,
    String,
>)
    ensures
        command_view(r) == spec_install(db, version@, in_snap, platform),
        db == DbType::Mongodb ==> (r matches Err(m) && m@ == MONGODB_BLOCKED@),
{
    if let Some(reason) = blocked_reason(db, version) {
        return Err(reason);
    }
    if in_snap {
        return Err(SNAP_REFUSAL.to_owned());
    }
    let pkg = package_name(db, version);
    install_command(pkg.as_str(), platform)
}

/// A blocked engine is refused with its own reason, inside a snap or not and
/// on every platform.
pub proof fn law_blocked_reason_wins(db: DbType, version: Seq<char>, in_snap: bool, platform: Platform)
    requires
        spec_blocked_reason(db) is Some,
    ensures
        spec_install(db, version, in_snap, platform) == Err::<(Seq<char>, Seq<Seq<char>>), Seq<char>>(
            spec_blocked_reason(db)->0,
        ),
{
}

/// Inside a snap, every engine that is not blocked is refused with the snap
/// message, whatever the platform.
pub proof fn law_snap_refuses_the_rest(db: DbType, version: Seq<char>, platform: Platform)
    requires
        spec_blocked_reason(db) is None,
    ensures
        spec_install(db, version, true, platform) == Err::<(Seq<char>, Seq<Seq<char>>), Seq<char>>(
            SNAP_REFUSAL@,
        ),
{
}

} // verus!
