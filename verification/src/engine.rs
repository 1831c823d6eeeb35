//! Engine-agnostic domain model shared by every database engine: the engine
//! kinds, instance lifecycle states, the instance and version records, the
//! behaviour every engine provides, and the error an engine operation raises.

pub mod paths;
pub mod proc;
pub mod tooling;

use vstd::prelude::*;
use vstd::string::*;
use crate::text::compare;
use crate::text::Order;
use crate::versions::{families, major_match, spec_families, spec_major_match, str_views};

verus! {

/// A database engine kind that can be managed.
///
/// The identifiers ([`DbType::as_str`]) are stable: they serve as map keys,
/// directory names and package lookups.
#[derive(Clone, Copy, Debug, PartialEq, Eq, Hash, Structural)]
pub enum DbType {
    Postgres,
    Mysql,
    Mariadb,
    Valkey,
    Redis,
    Mongodb,
}

impl DbType {
    /// The stable lowercase identifier of the engine kind.
    pub open spec fn id(self) -> Seq<char> {
        match self {
            DbType::Postgres => "postgres"@,
            DbType::Mysql => "mysql"@,
            DbType::Mariadb => "mariadb"@,
            DbType::Valkey => "valkey"@,
            DbType::Redis => "redis"@,
            DbType::Mongodb => "mongodb"@,
        }
    }

    /// Every supported engine kind, in display order.
    pub open spec fn spec_all() -> Seq<DbType> {
        seq![
            DbType::Postgres,
            DbType::Mysql,
            DbType::Mariadb,
            DbType::Valkey,
            DbType::Redis,
            DbType::Mongodb,
        ]
    }

    /// The engine kind whose identifier is `s`, if any.
    pub open spec fn spec_parse(s: Seq<char>) -> Option<DbType> {
        if exists|db: DbType| db.id() == s {
            Some(choose|db: DbType| db.id() == s)
        } else {
            None
        }
    }

    /// Returns the stable lowercase identifier (the serialized form).
    pub fn as_str(self) -> (s: &'static str)
        ensures
            s@ == self.id(),
    {
        match self {
            DbType::Postgres => "postgres",
            DbType::Mysql => "mysql",
            DbType::Mariadb => "mariadb",
            DbType::Valkey => "valkey",
            DbType::Redis => "redis",
            DbType::Mongodb => "mongodb",
        }
    }

    /// Every supported engine kind, in display order.
    pub fn all() -> (r: [DbType; 6])
        ensures
            r@ == Self::spec_all(),
    {
        let r = [
            DbType::Postgres,
            DbType::Mysql,
            DbType::Mariadb,
            DbType::Valkey,
            DbType::Redis,
            DbType::Mongodb,
        ];
        assert(r@ =~= Self::spec_all());
        r
    }

    /// Parses a stable identifier back into a [`DbType`], rejecting anything
    /// that is not one of the supported engines.
    pub fn parse(s: &str) -> (r: Option<DbType>)
        ensures
            r == Self::spec_parse(s@),
            r matches Some(db) ==> db.id() == s@,
            r is None <==> forall|db: DbType| db.id() != s@,
    {
        proof {
            lemma_ids_distinct();
        }
        let all = Self::all();
        let mut i: usize = 0;
        while i < 6
            invariant
                i <= 6,
                all@ == Self::spec_all(),
                forall|a: DbType, b: DbType| a.id() == b.id() ==> a == b,
                forall|j: int| 0 <= j < i ==> all@[j].id() != s@,
            decreases 6 - i,
        {
            let db = all[i];
            if compare(db.as_str(), s) == Order::Equal {
                return Some(db);
            }
            i = i + 1;
        }
        proof {
            assert forall|db: DbType| db.id() != s@ by {
                assert(Self::spec_all().contains(db)) by {
                    match db {
                        DbType::Postgres => assert(Self::spec_all()[0] == db),
                        DbType::Mysql => assert(Self::spec_all()[1] == db),
                        DbType::Mariadb => assert(Self::spec_all()[2] == db),
                        DbType::Valkey => assert(Self::spec_all()[3] == db),
                        DbType::Redis => assert(Self::spec_all()[4] == db),
                        DbType::Mongodb => assert(Self::spec_all()[5] == db),
                    }
                }
            }
        }
        None
    }
}

/// Distinct engine kinds have distinct identifiers.
pub proof fn lemma_ids_distinct()
    ensures
        forall|a: DbType, b: DbType| a.id() == b.id() ==> a == b,
{
    reveal_strlit("postgres");
    reveal_strlit("mysql");
    reveal_strlit("mariadb");
    reveal_strlit("valkey");
    reveal_strlit("redis");
    reveal_strlit("mongodb");
    assert forall|a: DbType, b: DbType| a.id() == b.id() implies a == b by {
        if a != b {
            assert(a.id().len() != b.id().len() || a.id()[0] != b.id()[0] || a.id()[1] != b.id()[1]);
        }
    }
}

/// Parsing the identifier of an engine kind gives that kind back, and every
/// supported kind is listed by [`DbType::all`].
pub proof fn law_parse_round_trips(db: DbType)
    ensures
        DbType::spec_parse(db.id()) == Some(db),
        DbType::spec_all().contains(db),
{
    lemma_ids_distinct();
    assert(exists|d: DbType| d.id() == db.id());
    match db {
        DbType::Postgres => assert(DbType::spec_all()[0] == db),
        DbType::Mysql => assert(DbType::spec_all()[1] == db),
        DbType::Mariadb => assert(DbType::spec_all()[2] == db),
        DbType::Valkey => assert(DbType::spec_all()[3] == db),
        DbType::Redis => assert(DbType::spec_all()[4] == db),
        DbType::Mongodb => assert(DbType::spec_all()[5] == db),
    }
}


/// The lifecycle state of a managed instance.
///
/// `NeedsInstall` and `Installing` describe the engine binary's availability,
/// not the process; the rest describe the running process.
#[derive(Clone, Copy, Debug, PartialEq, Eq, Structural)]
pub enum Status {
    Stopped,
    Running,
    Error,
    Init,
    NeedsInstall,
    Installing,
}

/// A managed database instance: its identity, on-disk layout and current state.
///
/// `id` is the stable handle passed back to every lifecycle call. The path
/// fields are owned exclusively by this instance.
#[derive(Clone, Debug, PartialEq, Eq)]
pub struct Instance {
    pub id: String,
    pub name: String,
    pub db_type: DbType,
    pub version: String,
    pub port: u16,
    pub data_dir: String,
    pub log_file: String,
    pub pid_file: String,
    pub conf_file: String,
    pub user: String,
    pub status: Status,
    pub created_at: String,
    pub last_error: String,
    pub upgrade_version: String,
    pub patch_update: String,
}

impl Instance {
    /// A field-by-field copy of the instance.
    pub fn copy(&self) -> (r: Instance)
        ensures
            r == *self,
    {
        Instance {
            id: self.id.clone(),
            name: self.name.clone(),
            db_type: self.db_type,
            version: self.version.clone(),
            port: self.port,
            data_dir: self.data_dir.clone(),
            log_file: self.log_file.clone(),
            pid_file: self.pid_file.clone(),
            conf_file: self.conf_file.clone(),
            user: self.user.clone(),
            status: self.status,
            created_at: self.created_at.clone(),
            last_error: self.last_error.clone(),
            upgrade_version: self.upgrade_version.clone(),
            patch_update: self.patch_update.clone(),
        }
    }
}

/// An installable or installed engine version family.
///
/// `major` is the user-facing family (e.g. `"17"` for Postgres); `installed`
/// reflects whether a matching binary was found on this machine.
#[derive(Clone, Debug, PartialEq, Eq)]
pub struct Version {
    pub db_type: DbType,
    pub major: String,
    pub bin_path: String,
    pub installed: bool,
    pub label: String,
    pub latest_patch: String,
    pub installed_version: String,
}

impl Version {
    /// A field-by-field copy of the version record.
    pub fn copy(&self) -> (r: Version)
        ensures
            r == *self,
    {
        Version {
            db_type: self.db_type,
            major: self.major.clone(),
            bin_path: self.bin_path.clone(),
            installed: self.installed,
            label: self.label.clone(),
            latest_patch: self.latest_patch.clone(),
            installed_version: self.installed_version.clone(),
        }
    }
}

/// A failure raised by an [`Engine`] operation, carrying a human-readable
/// message; the variant tells whether the engine tooling, our own I/O or a
/// missing binary was the cause.
#[derive(Debug)]
pub enum EngineError {
    /// The engine's own tooling failed (non-zero exit, refused to start, …).
    Tooling(String),
    /// A filesystem or process operation we issued failed.
    Io(String),
    /// The requested engine binary was not found on this machine.
    NotInstalled(String),
}

impl EngineError {
    /// The message carried by the error, whatever its variant.
    pub open spec fn message(&self) -> Seq<char> {
        match self {
            EngineError::Tooling(m) => m@,
            EngineError::Io(m) => m@,
            EngineError::NotInstalled(m) => m@,
        }
    }

    /// The human-readable message: exactly the carried text.
    pub fn to_string(&self) -> (s: String)
        ensures
            s@ == self.message(),
    {
        match self {
            EngineError::Tooling(m) => m.clone(),
            EngineError::Io(m) => m.clone(),
            EngineError::NotInstalled(m) => m.clone(),
        }
    }
}

#[verifier::external_type_specification]
#[verifier::external_body]
pub struct ExIoError(std::io::Error);

impl From<std::io::Error> for EngineError {
    /// Wraps an I/O failure as [`EngineError::Io`], carrying the error's own
    /// display text.
    fn from(e: std::io::Error) -> (r: Self)
        ensures
            r matches EngineError::Io(m) && to_string_from_display_ensures::<std::io::Error>(&e, m),
    {
        EngineError::Io(e.to_string())
    }
}

impl vstd::std_specs::convert::FromSpecImpl<std::io::Error> for EngineError {
    /// The display text of an I/O error has no specification, so no
    /// functional `from_spec` is claimed; the `ensures` of `from` says what holds.
    open spec fn obeys_from_spec() -> bool {
        false
    }

    open spec fn from_spec(v: std::io::Error) -> Self {
        EngineError::Io(arbitrary())
    }
}

/// The behaviour every engine implementation provides.
///
/// Implementations shell out to the engine's own tooling; each method acts on a
/// single instance and must leave that instance's data directory untouched on
/// failure. The disk is not modelled here, so that obligation rests with each
/// implementation and no proof in this library depends on it. `create` may
/// record engine-specific details in the instance, but must keep its identity
/// and layout (id, name, kind, version, port and the four paths) as it found
/// them.
///
/// Each `may_*` relation says which outcomes an operation may have; one that an
/// implementation leaves as it is allows every outcome, which is all that the
/// library assumes of an engine whose behaviour depends on the host.
pub trait Engine {
    /// The engine kind this implementation manages; every implementation
    /// names it (the same kind that [`Engine::db_type`] returns).
    spec fn kind(&self) -> DbType;

    /// Whether `vs` is a version list this engine may report. What an engine
    /// finds installed depends on the machine, so this is a relation the
    /// implementation stands for, not a function of the engine.
    open spec fn may_offer(&self, vs: Seq<Version>) -> bool {
        true
    }

    /// Whether initializing `inst` may end with `r`.
    open spec fn may_create(&self, inst: Instance, r: Result<(), EngineError>) -> bool {
        true
    }

    /// Whether starting `inst` may end with `r`.
    open spec fn may_start(&self, inst: Instance, r: Result<(), EngineError>) -> bool {
        true
    }

    /// Whether stopping `inst` may end with `r`.
    open spec fn may_stop(&self, inst: Instance, r: Result<(), EngineError>) -> bool {
        true
    }

    /// Whether removing `inst` may end with `r`.
    open spec fn may_delete(&self, inst: Instance, r: Result<(), EngineError>) -> bool {
        true
    }

    /// Whether the live status of `inst` may be reported as `s`.
    open spec fn may_report(&self, inst: Instance, s: Status) -> bool {
        true
    }

    /// The engine kind this implementation manages.
    fn db_type(&self) -> (r: DbType)
        ensures
            r == self.kind(),
    ;

    /// The installed and installable version families for this engine, all
    /// of its own kind.
    fn versions(&self) -> (r: Vec<Version>)
        ensures
            self.may_offer(r@),
            forall|i: int| 0 <= i < r@.len() ==> (#[trigger] r@[i]).db_type == self.kind(),
    ;

    /// Initializes the instance's data directory and writes its configuration.
    fn create(&self, inst: &mut Instance) -> (r: Result<(), EngineError>)
        ensures
            self.may_create(*old(inst), r),
            final(inst).id == old(inst).id,
            final(inst).name == old(inst).name,
            final(inst).db_type == old(inst).db_type,
            final(inst).version == old(inst).version,
            final(inst).port == old(inst).port,
            final(inst).data_dir == old(inst).data_dir,
            final(inst).log_file == old(inst).log_file,
            final(inst).pid_file == old(inst).pid_file,
            final(inst).conf_file == old(inst).conf_file,
            final(inst).user == old(inst).user,
    ;

    /// Starts the instance's server process.
    fn start(&self, inst: &Instance) -> (r: Result<(), EngineError>)
        ensures
            self.may_start(*inst, r),
    ;

    /// Stops the instance's server process.
    fn stop(&self, inst: &Instance) -> (r: Result<(), EngineError>)
        ensures
            self.may_stop(*inst, r),
    ;

    /// Removes the instance's data directory and on-disk artifacts.
    fn delete(&self, inst: &Instance) -> (r: Result<(), EngineError>)
        ensures
            self.may_delete(*inst, r),
    ;

    /// Reports the instance's live status from its pidfile and port.
    fn check_status(&self, inst: &Instance) -> (s: Status)
        ensures
            self.may_report(*inst, s),
    ;
}


/// The view of an optional string slice.
pub open spec fn opt_str(v: Option<&str>) -> Option<Seq<char>> {
    match v {
        Some(s) => Some(s@),
        None => None,
    }
}

/// `v` is the record offered for the bundled family `major` of `db`, given
/// the version reported by the installed binary (if any) and the directory
/// holding it: the family counts as installed exactly when the reported
/// version belongs to it.
pub open spec fn is_family_version(
    v: Version,
    db: DbType,
    label: Seq<char>,
    major: Seq<char>,
    installed: Option<Seq<char>>,
    bin_dir: Seq<char>,
) -> bool {
    let found = installed is Some && spec_major_match(installed->0, major);
    &&& v.db_type == db
    &&& v.major@ == major
    &&& v.bin_path@ == (if found {
        bin_dir
    } else {
        Seq::empty()
    })
    &&& v.installed == found
    &&& v.label@ == label + " "@ + major
    &&& v.latest_patch@ == major
    &&& v.installed_version@ == (if found {
        installed->0
    } else {
        Seq::empty()
    })
}

/// One record per bundled family of `db`, newest first, marking as installed
/// the family the installed binary's reported version belongs to.
pub fn detected_versions(db: DbType, label: &str, installed: Option<&str>, bin_dir: &str) -> (r: Vec<
    Version,
>)
    ensures
        r@.len() == spec_families(db).len(),
        forall|i: int|
            0 <= i < r@.len() ==> is_family_version(
                #[trigger] r@[i],
                db,
                label@,
                spec_families(db)[i],
                opt_str(installed),
                bin_dir@,
            ),
{
    let fams = families(db);
    let mut r: Vec<Version> = Vec::new();
    let mut i: usize = 0;
    while i < fams.len()
        invariant
            i <= fams.len(),
            str_views(fams@) == spec_families(db),
            r@.len() == i,
            forall|k: int|
                0 <= k < i ==> is_family_version(
                    #[trigger] r@[k],
                    db,
                    label@,
                    spec_families(db)[k],
                    opt_str(installed),
                    bin_dir@,
                ),
        decreases fams.len() - i,
    {
        let major = fams[i];
        assert(spec_families(db)[i as int] == major@);
        let found = match installed {
            Some(v) => major_match(v, major),
            None => false,
        };
        let mut label_text = label.to_owned();
        label_text.append(" ");
        label_text.append(major);
        let v = Version {
            db_type: db,
            major: major.to_owned(),
            bin_path: if found {
                bin_dir.to_owned()
            } else {
                String::new()
            },
            installed: found,
            label: label_text,
            latest_patch: major.to_owned(),
            installed_version: if found {
                match installed {
                    Some(v) => v.to_owned(),
                    None => String::new(),
                }
            } else {
                String::new()
            },
        };
        r.push(v);
        i = i + 1;
    }
    r
}

} // verus!
