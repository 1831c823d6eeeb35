//! Instance manager — the orchestrator behind the application's commands.
//!
//! Owns the registry of managed instances, their on-disk layout and the
//! lifecycle calls that fan out to the per-engine implementations. Every
//! instance it creates gets a fresh id and its own data directory, no port is
//! handed to a new instance while another instance holds it, and every change
//! to the registry marks it for saving so that the persisted registry follows
//! the one in memory; a creation whose save failed is taken back with
//! `settle_create`, so memory never holds an instance the registry lacks.
//! Writing the registry, probing ports and running install commands are the
//! caller's: the manager takes their outcomes as arguments.

use vstd::prelude::*;
use vstd::string::*;
use crate::engine::paths::{concat, join, spec_join};
use crate::install::{blocked_reason, install as install_plan, spec_blocked_reason, spec_install, string_views, InstallCommand, Platform};
use crate::engine::{DbType, Engine, EngineError, Instance, Status, Version};
use crate::dict::key_views;
use crate::ranking::{in_rank_order, sort_ranked};
use crate::store::StoreError;
use crate::text::{chars_of, compare, dec, hex_byte, push_dec, push_hex_byte, string_of, trim, trim_chars, Order};

verus! {

/// A manager-level failure.
#[derive(Debug)]
pub enum ManagerError {
    /// The requested instance id is not in the registry.
    NotFound(String),
    /// A supplied argument was invalid (empty name, unknown engine, …).
    Invalid(String),
    /// No free port was found in the scan window.
    NoFreePort(DbType),
    /// An engine operation failed.
    Engine(String),
    /// Reading or writing the registry failed.
    Store(String),
}

impl ManagerError {
    /// The human-readable message of the error.
    pub open spec fn message(&self) -> Seq<char> {
        match self {
            ManagerError::NotFound(id) => "no such instance: "@ + id@,
            ManagerError::Invalid(m) => m@,
            ManagerError::NoFreePort(db) => "no free port for "@ + db.id() + " in scan window"@,
            ManagerError::Engine(m) => m@,
            ManagerError::Store(m) => m@,
        }
    }

    /// The human-readable message of the error (see [`ManagerError::message`]).
    pub fn to_string(&self) -> (s: String)
        ensures
            s@ == self.message(),
    {
        match self {
            ManagerError::NotFound(id) => {
                let mut s = "no such instance: ".to_owned();
                s.append(id.as_str());
                s
            },
            ManagerError::Invalid(m) => m.clone(),
            ManagerError::NoFreePort(db) => {
                let mut s = "no free port for ".to_owned();
                s.append(db.as_str());
                s.append(" in scan window");
                s
            },
            ManagerError::Engine(m) => m.clone(),
            ManagerError::Store(m) => m.clone(),
        }
    }
}

impl From<EngineError> for ManagerError {
    /// An engine failure becomes [`ManagerError::Engine`] carrying its message.
    fn from(e: EngineError) -> (r: Self)
        ensures
            r matches ManagerError::Engine(m) && m@ == e.message(),
    {
        match e {
            EngineError::Tooling(m) => ManagerError::Engine(m),
            EngineError::Io(m) => ManagerError::Engine(m),
            EngineError::NotInstalled(m) => ManagerError::Engine(m),
        }
    }
}

impl vstd::std_specs::convert::FromSpecImpl<EngineError> for ManagerError {
    open spec fn obeys_from_spec() -> bool {
        true
    }

    open spec fn from_spec(v: EngineError) -> Self {
        match v {
            EngineError::Tooling(m) => ManagerError::Engine(m),
            EngineError::Io(m) => ManagerError::Engine(m),
            EngineError::NotInstalled(m) => ManagerError::Engine(m),
        }
    }
}

impl From<StoreError> for ManagerError {
    /// A registry failure becomes [`ManagerError::Store`] carrying its message.
    fn from(e: StoreError) -> (r: Self)
        ensures
            r matches ManagerError::Store(m) && m@ == e.message(),
    {
        ManagerError::Store(e.to_string())
    }
}

impl vstd::std_specs::convert::FromSpecImpl<StoreError> for ManagerError {
    /// The store error's message is composed text, which a spec function cannot
    /// build as a `String`; the `ensures` of `from` states the result instead.
    open spec fn obeys_from_spec() -> bool {
        false
    }

    open spec fn from_spec(v: StoreError) -> Self {
        ManagerError::Store(arbitrary())
    }
}

/// The first port each engine kind is offered; allocation scans upward from
/// here. Kept distinct per engine so fresh instances rarely collide.
pub open spec fn spec_default_port(db: DbType) -> u16 {
    match db {
        DbType::Postgres => 5432,
        DbType::Mysql => 3306,
        DbType::Mariadb => 3316,
        DbType::Valkey => 6390,
        DbType::Redis => 6379,
        DbType::Mongodb => 27017,
    }
}

/// The first port offered to an engine kind.
pub fn default_port(db: DbType) -> (p: u16)
    ensures
        p == spec_default_port(db),
{
    match db {
        DbType::Postgres => 5432,
        DbType::Mysql => 3306,
        DbType::Mariadb => 3316,
        DbType::Valkey => 6390,
        DbType::Redis => 6379,
        DbType::Mongodb => 27017,
    }
}

/// The first port each kind is offered: PostgreSQL 5432, MySQL 3306,
/// MariaDB 3316, Redis 6379, Valkey 6390 and MongoDB 27017.
pub proof fn law_default_ports(db: DbType)
    ensures
        db is Postgres ==> spec_default_port(db) == 5432,
        db is Mysql ==> spec_default_port(db) == 3306,
        db is Mariadb ==> spec_default_port(db) == 3316,
        db is Redis ==> spec_default_port(db) == 6379,
        db is Valkey ==> spec_default_port(db) == 6390,
        db is Mongodb ==> spec_default_port(db) == 27017,
{
}

/// The configuration file each kind writes: `.cnf` for MySQL and MariaDB,
/// `.conf` for Valkey and Redis, `.yml` for MongoDB, and none for PostgreSQL.
pub proof fn law_config_extensions(db: DbType)
    ensures
        (db is Mysql || db is Mariadb) ==> spec_conf_ext(db) == Some("cnf"@),
        (db is Valkey || db is Redis) ==> spec_conf_ext(db) == Some("conf"@),
        db is Mongodb ==> spec_conf_ext(db) == Some("yml"@),
        db is Postgres ==> spec_conf_ext(db) is None,
{
}

/// No two engine kinds are offered the same first port.
pub proof fn law_default_ports_distinct(a: DbType, b: DbType)
    requires
        a != b,
    ensures
        spec_default_port(a) != spec_default_port(b),
{
}

/// How far above the default port allocation will scan before giving up.
pub const PORT_SCAN_SPAN: u16 = 500;

/// The configuration file extension an engine uses, if it writes one.
pub open spec fn spec_conf_ext(db: DbType) -> Option<Seq<char>> {
    match db {
        DbType::Postgres => None,
        DbType::Mysql | DbType::Mariadb => Some("cnf"@),
        DbType::Valkey | DbType::Redis => Some("conf"@),
        DbType::Mongodb => Some("yml"@),
    }
}

/// The configuration file extension an engine uses, if it writes one.
pub fn conf_ext(db: DbType) -> (r: Option<&'static str>)
    ensures
        match r {
            Some(e) => spec_conf_ext(db) == Some(e@),
            None => spec_conf_ext(db) is None,
        },
{
    match db {
        DbType::Postgres => None,
        DbType::Mysql | DbType::Mariadb => Some("cnf"),
        DbType::Valkey | DbType::Redis => Some("conf"),
        DbType::Mongodb => Some("yml"),
    }
}

/// The default superuser or role name surfaced for an engine's connection URI.
pub open spec fn spec_default_user(db: DbType) -> Seq<char> {
    match db {
        DbType::Postgres => "postgres"@,
        DbType::Mysql | DbType::Mariadb => "root"@,
        DbType::Valkey | DbType::Redis | DbType::Mongodb => ""@,
    }
}

/// The default superuser or role name surfaced for an engine's connection URI.
pub fn default_user(db: DbType) -> (r: &'static str)
    ensures
        r@ == spec_default_user(db),
{
    match db {
        DbType::Postgres => "postgres",
        DbType::Mysql | DbType::Mariadb => "root",
        DbType::Valkey | DbType::Redis | DbType::Mongodb => "",
    }
}

/// The superuser a new instance is given: `root` for MySQL and MariaDB (the
/// account their insecure initialization creates), `postgres` for
/// PostgreSQL, and none for Valkey, Redis and MongoDB.
pub proof fn law_default_users(db: DbType)
    ensures
        (db is Mysql || db is Mariadb) ==> spec_default_user(db) == "root"@,
        db is Postgres ==> spec_default_user(db) == "postgres"@,
        (db is Valkey || db is Redis || db is Mongodb) ==> spec_default_user(db) == Seq::<char>::empty(),
{
    reveal_strlit("");
}

/// No two instances of `s` share an id.
pub open spec fn ids_unique(s: Seq<Instance>) -> bool {
    forall|i: int, j: int| 0 <= i < s.len() && 0 <= j < s.len() && i != j ==> s[i].id@ != s[j].id@
}

/// Some instance of `s` has the id `id`.
pub open spec fn has_id(s: Seq<Instance>, id: Seq<char>) -> bool {
    exists|i: int| 0 <= i < s.len() && s[i].id@ == id
}

/// The registry `s` as a map from instance id to instance.
pub open spec fn registry_map(s: Seq<Instance>) -> Map<Seq<char>, Instance> {
    Map::new(
        |id: Seq<char>| has_id(s, id),
        |id: Seq<char>| s[choose|i: int| 0 <= i < s.len() && s[i].id@ == id],
    )
}

/// In a registry with unique ids, each instance is found under its own id.
pub proof fn lemma_registry_at(s: Seq<Instance>, i: int)
    requires
        ids_unique(s),
        0 <= i < s.len(),
    ensures
        registry_map(s).contains_key(s[i].id@),
        registry_map(s)[s[i].id@] == s[i],
{
    assert(has_id(s, s[i].id@));
    let k = choose|k: int| 0 <= k < s.len() && s[k].id@ == s[i].id@;
    assert(k == i);
}

/// Replacing an instance by one with the same id updates that one entry.
pub proof fn lemma_registry_update(s: Seq<Instance>, i: int, x: Instance)
    requires
        ids_unique(s),
        0 <= i < s.len(),
        x.id@ == s[i].id@,
    ensures
        ids_unique(s.update(i, x)),
        registry_map(s.update(i, x)) == registry_map(s).insert(x.id@, x),
{
    let t = s.update(i, x);
    assert forall|id: Seq<char>| has_id(t, id) == has_id(s, id) by {
        if has_id(t, id) {
            let k = choose|k: int| 0 <= k < t.len() && t[k].id@ == id;
            assert(s[k].id@ == id);
        }
        if has_id(s, id) {
            let k = choose|k: int| 0 <= k < s.len() && s[k].id@ == id;
            assert(t[k].id@ == id);
        }
    }
    assert forall|k: int| 0 <= k < t.len() implies registry_map(t)[t[k].id@] == t[k] by {
        lemma_registry_at(t, k);
    }
    assert forall|id: Seq<char>| #[trigger] registry_map(t).contains_key(id) implies registry_map(
        t,
    )[id] == registry_map(s).insert(x.id@, x)[id] by {
        let k = choose|k: int| 0 <= k < t.len() && t[k].id@ == id;
        lemma_registry_at(t, k);
        if k != i {
            lemma_registry_at(s, k);
        }
    }
    assert(registry_map(t) =~= registry_map(s).insert(x.id@, x));
}

/// Appending an instance with a fresh id adds that one entry.
pub proof fn lemma_registry_push(s: Seq<Instance>, x: Instance)
    requires
        ids_unique(s),
        !has_id(s, x.id@),
    ensures
        ids_unique(s.push(x)),
        registry_map(s.push(x)) == registry_map(s).insert(x.id@, x),
{
    let t = s.push(x);
    assert forall|i: int, j: int|
        0 <= i < t.len() && 0 <= j < t.len() && i != j implies t[i].id@ != t[j].id@ by {
        if i == s.len() {
            assert(t[j] == s[j]);
        } else if j == s.len() {
            assert(t[i] == s[i]);
        }
    }
    assert forall|id: Seq<char>| has_id(t, id) == (has_id(s, id) || id == x.id@) by {
        if has_id(t, id) {
            let k = choose|k: int| 0 <= k < t.len() && t[k].id@ == id;
            if k < s.len() {
                assert(s[k].id@ == id);
            }
        }
        if has_id(s, id) {
            let k = choose|k: int| 0 <= k < s.len() && s[k].id@ == id;
            assert(t[k].id@ == id);
        }
        if id == x.id@ {
            assert(t[s.len() as int].id@ == id);
        }
    }
    assert forall|id: Seq<char>| #[trigger] registry_map(t).contains_key(id) implies registry_map(
        t,
    )[id] == registry_map(s).insert(x.id@, x)[id] by {
        let k = choose|k: int| 0 <= k < t.len() && t[k].id@ == id;
        lemma_registry_at(t, k);
        if k < s.len() {
            lemma_registry_at(s, k);
        }
    }
    assert(registry_map(t) =~= registry_map(s).insert(x.id@, x));
}

/// Removing an instance drops exactly its entry.
pub proof fn lemma_registry_remove(s: Seq<Instance>, i: int)
    requires
        ids_unique(s),
        0 <= i < s.len(),
    ensures
        ids_unique(s.remove(i)),
        registry_map(s.remove(i)) == registry_map(s).remove(s[i].id@),
{
    let t = s.remove(i);
    let gone = s[i].id@;
    assert forall|a: int, b: int|
        0 <= a < t.len() && 0 <= b < t.len() && a != b implies t[a].id@ != t[b].id@ by {
        let sa = if a < i {
            a
        } else {
            a + 1
        };
        let sb = if b < i {
            b
        } else {
            b + 1
        };
        assert(t[a] == s[sa]);
        assert(t[b] == s[sb]);
    }
    assert forall|id: Seq<char>| has_id(t, id) == (has_id(s, id) && id != gone) by {
        if has_id(t, id) {
            let k = choose|k: int| 0 <= k < t.len() && t[k].id@ == id;
            let sk = if k < i {
                k
            } else {
                k + 1
            };
            assert(t[k] == s[sk]);
            assert(s[sk].id@ == id);
        }
        if has_id(s, id) && id != gone {
            let k = choose|k: int| 0 <= k < s.len() && s[k].id@ == id;
            if k < i {
                assert(t[k] == s[k]);
            } else {
                assert(k != i);
                assert(t[k - 1] == s[k]);
            }
        }
    }
    assert forall|id: Seq<char>| #[trigger] registry_map(t).contains_key(id) implies registry_map(
        t,
    )[id] == registry_map(s).remove(gone)[id] by {
        let k = choose|k: int| 0 <= k < t.len() && t[k].id@ == id;
        lemma_registry_at(t, k);
        let sk = if k < i {
            k
        } else {
            k + 1
        };
        assert(t[k] == s[sk]);
        lemma_registry_at(s, sk);
    }
    assert(registry_map(t) =~= registry_map(s).remove(gone));
}

/// In a registry with unique ids, an instance occurs once exactly when the
/// registry holds it under its id, and otherwise not at all.
pub proof fn lemma_registry_counts(s: Seq<Instance>)
    requires
        ids_unique(s),
    ensures
        forall|x: Instance| #[trigger] s.to_multiset().count(x) == if registry_map(s).contains_key(x.id@)
            && registry_map(s)[x.id@] == x {
            1nat
        } else {
            0nat
        },
{
    assert(s.no_duplicates());
    s.lemma_multiset_has_no_duplicates();
    s.to_multiset_ensures();
    assert forall|x: Instance| #[trigger] s.to_multiset().count(x) == if registry_map(s).contains_key(x.id@)
        && registry_map(s)[x.id@] == x {
        1nat
    } else {
        0nat
    } by {
        if s.contains(x) {
            let k = choose|k: int| 0 <= k < s.len() && s[k] == x;
            lemma_registry_at(s, k);
        } else if registry_map(s).contains_key(x.id@) && registry_map(s)[x.id@] == x {
            let k = choose|k: int| 0 <= k < s.len() && s[k].id@ == x.id@;
            lemma_registry_at(s, k);
            assert(s[k] == x);
        }
    }
}

/// The lowercase hex rendering of a byte sequence.
pub open spec fn hex_of(b: Seq<u8>) -> Seq<char>
    decreases b.len(),
{
    if b.len() == 0 {
        Seq::empty()
    } else {
        hex_of(b.drop_last()) + hex_byte(b.last())
    }
}

/// A 12-character lowercase hex id made of six random bytes.
pub open spec fn is_random_id(id: Seq<char>) -> bool {
    exists|b: Seq<u8>| b.len() == 6 && id == hex_of(b)
}

/// The lowercase hex rendering of six bytes.
pub fn hex_id(bytes: &[u8; 6]) -> (r: String)
    ensures
        r@ == hex_of(bytes@),
{
    let mut r = String::new();
    let mut i: usize = 0;
    while i < 6
        invariant
            i <= 6,
            bytes@.len() == 6,
            r@ == hex_of(bytes@.take(i as int)),
        decreases 6 - i,
    {
        push_hex_byte(&mut r, bytes[i]);
        proof {
            assert(bytes@.take(i + 1).drop_last() =~= bytes@.take(i as int));
        }
        i = i + 1;
    }
    assert(bytes@.take(6) =~= bytes@);
    r
}

/// Six bytes from the operating system's random source
/// (`getrandom::getrandom`), or `None` when the source fails; nothing is
/// claimed of the bytes themselves.
#[verifier::external_body]
fn random_bytes() -> (r: Option<[u8; 6]>) {
    let mut bytes = [0u8; 6];
    match getrandom::getrandom(&mut bytes) {
        Ok(()) => Some(bytes),
        Err(_) => None,
    }
}

/// The message given when no random id can be drawn.
pub const RNG_UNAVAILABLE: &'static str = "system RNG unavailable";

/// `inst` is laid out as a new instance: its paths sit under the manager's
/// directories, named by its id.
pub open spec fn laid_out(
    inst: Instance,
    dirs: (Seq<char>, Seq<char>, Seq<char>, Seq<char>),
    db: DbType,
) -> bool {
    &&& inst.data_dir@ == spec_join(dirs.0, inst.id@)
    &&& inst.log_file@ == spec_join(dirs.1, inst.id@ + ".log"@)
    &&& inst.pid_file@ == spec_join(dirs.2, inst.id@ + ".pid"@)
    &&& inst.conf_file@ == match spec_conf_ext(db) {
        Some(ext) => spec_join(dirs.3, inst.id@ + "."@ + ext),
        None => Seq::empty(),
    }
}

/// A random id is twelve hex digits, none of them a path separator.
pub proof fn lemma_random_id_shape(id: Seq<char>)
    requires
        is_random_id(id),
    ensures
        id.len() == 12,
        forall|i: int| 0 <= i < id.len() ==> id[i] != '/',
{
    let b = choose|b: Seq<u8>| b.len() == 6 && id == hex_of(b);
    lemma_hex_shape(b);
}

/// The hex rendering of `b` has two characters per byte, none of them a
/// path separator.
proof fn lemma_hex_shape(b: Seq<u8>)
    ensures
        hex_of(b).len() == 2 * b.len(),
        forall|i: int| 0 <= i < hex_of(b).len() ==> hex_of(b)[i] != '/',
    decreases b.len(),
{
    if b.len() > 0 {
        lemma_hex_shape(b.drop_last());
        let h = hex_byte(b.last());
        assert forall|x: nat| x < 16 implies crate::text::digit(x) != '/' by {
            assert(crate::text::hex_digits()[x as int] != '/');
        }
        assert(h[0] != '/' && h[1] != '/');
        assert forall|i: int| 0 <= i < hex_of(b).len() implies hex_of(b)[i] != '/' by {
            let pre = hex_of(b.drop_last());
            if i >= pre.len() {
                assert(hex_of(b)[i] == h[i - pre.len()]);
            } else {
                assert(hex_of(b)[i] == pre[i]);
            }
        }
    }
}

/// Joining one directory with two names that begin with twelve-character ids
/// holding no separator gives equal paths only when the ids are equal.
proof fn lemma_join_separates_ids(d: Seq<char>, x: Seq<char>, y: Seq<char>, sx: Seq<char>, sy: Seq<char>)
    requires
        x.len() == 12,
        y.len() == 12,
        forall|i: int| 0 <= i < x.len() ==> x[i] != '/',
        forall|i: int| 0 <= i < y.len() ==> y[i] != '/',
        spec_join(d, x + sx) == spec_join(d, y + sy),
    ensures
        x == y,
{
    let a = x + sx;
    let b = y + sy;
    assert(a[0] == x[0]);
    assert(b[0] == y[0]);
    assert(!crate::text::starts_with(a, seq!['/'])) by {
        if crate::text::starts_with(a, seq!['/']) {
            assert(a.take(1)[0] == '/');
        }
    }
    assert(!crate::text::starts_with(b, seq!['/'])) by {
        if crate::text::starts_with(b, seq!['/']) {
            assert(b.take(1)[0] == '/');
        }
    }
    let p = if d.len() == 0 {
        Seq::<char>::empty()
    } else if d.last() == '/' {
        d
    } else {
        d + seq!['/']
    };
    assert(spec_join(d, a) =~= p + a);
    assert(spec_join(d, b) =~= p + b);
    assert forall|i: int| 0 <= i < 12 implies x[i] == y[i] by {
        assert((p + a)[p.len() + i] == x[i]);
        assert((p + b)[p.len() + i] == y[i]);
    }
    assert(x =~= y);
}

/// Two instances laid out under the same directories with different random
/// ids never share a data directory, a log file, a pid file or a config file.
pub proof fn law_isolated_paths(
    a: Instance,
    b: Instance,
    dirs: (Seq<char>, Seq<char>, Seq<char>, Seq<char>),
    da: DbType,
    db: DbType,
)
    requires
        laid_out(a, dirs, da),
        laid_out(b, dirs, db),
        is_random_id(a.id@),
        is_random_id(b.id@),
        a.id@ != b.id@,
    ensures
        a.data_dir@ != b.data_dir@,
        a.log_file@ != b.log_file@,
        a.pid_file@ != b.pid_file@,
        a.conf_file@.len() > 0 && b.conf_file@.len() > 0 ==> a.conf_file@ != b.conf_file@,
{
    lemma_random_id_shape(a.id@);
    lemma_random_id_shape(b.id@);
    let e = Seq::<char>::empty();
    if a.data_dir@ == b.data_dir@ {
        assert(a.id@ + e =~= a.id@);
        assert(b.id@ + e =~= b.id@);
        lemma_join_separates_ids(dirs.0, a.id@, b.id@, e, e);
    }
    if a.log_file@ == b.log_file@ {
        lemma_join_separates_ids(dirs.1, a.id@, b.id@, ".log"@, ".log"@);
    }
    if a.pid_file@ == b.pid_file@ {
        lemma_join_separates_ids(dirs.2, a.id@, b.id@, ".pid"@, ".pid"@);
    }
    if a.conf_file@.len() > 0 && b.conf_file@.len() > 0 && a.conf_file@ == b.conf_file@ {
        let xa = spec_conf_ext(da)->0;
        let xb = spec_conf_ext(db)->0;
        assert(a.id@ + "."@ + xa =~= a.id@ + ("."@ + xa));
        assert(b.id@ + "."@ + xb =~= b.id@ + ("."@ + xb));
        lemma_join_separates_ids(dirs.3, a.id@, b.id@, "."@ + xa, "."@ + xb);
    }
}

/// Whether some instance of the registry `m` holds `port`.
pub open spec fn port_held(m: Map<Seq<char>, Instance>, port: u16) -> bool {
    exists|id: Seq<char>| #[trigger] m.contains_key(id) && m[id].port == port
}

/// A port that no instance held, given to a newly registered instance, is
/// held by that instance alone.
pub proof fn law_new_port_unshared(before: Map<Seq<char>, Instance>, inst: Instance)
    requires
        !port_held(before, inst.port),
    ensures
        forall|id: Seq<char>| #[trigger] before.insert(inst.id@, inst).contains_key(id) && id != inst.id@
            ==> before.insert(inst.id@, inst)[id].port != inst.port,
{
    assert forall|id: Seq<char>| #[trigger] before.insert(inst.id@, inst).contains_key(id) && id != inst.id@
        implies before.insert(inst.id@, inst)[id].port != inst.port by {
        assert(before.contains_key(id));
    }
}

/// No two instances of `m` share a port or a data directory.
pub open spec fn stands_apart(m: Map<Seq<char>, Instance>) -> bool {
    forall|a: Seq<char>, b: Seq<char>|
        #[trigger] m.contains_key(a) && #[trigger] m.contains_key(b) && a != b ==> m[a].port != m[b].port
            && m[a].data_dir@ != m[b].data_dir@
}

/// Every instance of `m` is filed under its own random id and laid out under
/// `dirs`, as [`Manager::create`] makes them.
pub open spec fn laid_out_under(m: Map<Seq<char>, Instance>, dirs: (Seq<char>, Seq<char>, Seq<char>, Seq<char>)) -> bool {
    forall|id: Seq<char>|
        #[trigger] m.contains_key(id) ==> m[id].id@ == id && is_random_id(id) && laid_out(m[id], dirs, m[id].db_type)
}

/// A registry of instances laid out under `dirs`, no two of which share a
/// port or a data directory, keeps that property when a new instance with a
/// fresh random id, laid out under the same directories, is registered on a
/// port that no instance held (as a successful [`Manager::create`] does).
pub proof fn law_created_stands_apart(
    before: Map<Seq<char>, Instance>,
    inst: Instance,
    dirs: (Seq<char>, Seq<char>, Seq<char>, Seq<char>),
)
    requires
        stands_apart(before),
        laid_out_under(before, dirs),
        laid_out(inst, dirs, inst.db_type),
        is_random_id(inst.id@),
        !before.contains_key(inst.id@),
        !port_held(before, inst.port),
    ensures
        stands_apart(before.insert(inst.id@, inst)),
        laid_out_under(before.insert(inst.id@, inst), dirs),
{
    let after = before.insert(inst.id@, inst);
    assert forall|id: Seq<char>| #[trigger] before.contains_key(id) implies after[id].port != inst.port
        && after[id].data_dir@ != inst.data_dir@ by {
        assert(id != inst.id@);
        law_isolated_paths(before[id], inst, dirs, before[id].db_type, inst.db_type);
    }
    assert forall|a: Seq<char>, b: Seq<char>|
        #[trigger] after.contains_key(a) && #[trigger] after.contains_key(b) && a != b implies after[a].port
        != after[b].port && after[a].data_dir@ != after[b].data_dir@ by {
        if a == inst.id@ {
            assert(before.contains_key(b));
        } else if b == inst.id@ {
            assert(before.contains_key(a));
        } else {
            assert(before.contains_key(a) && before.contains_key(b));
        }
    }
}

/// `pre` is the record a new instance is handed to its engine as: named
/// `name` (trimmed), of kind `db` and version `version`, with a fresh random
/// id, laid out under `dirs`, the kind's default user, nothing else set, and
/// still initializing.
pub open spec fn handed_to_engine(
    pre: Instance,
    name: Seq<char>,
    db: DbType,
    version: Seq<char>,
    dirs: (Seq<char>, Seq<char>, Seq<char>, Seq<char>),
) -> bool {
    &&& pre.name@ == trim(name)
    &&& pre.db_type == db
    &&& pre.version@ == version
    &&& is_random_id(pre.id@)
    &&& laid_out(pre, dirs, db)
    &&& pre.user@ == spec_default_user(db)
    &&& pre.status == Status::Init
    &&& pre.created_at@ == Seq::<char>::empty()
    &&& pre.last_error@ == Seq::<char>::empty()
    &&& pre.upgrade_version@ == Seq::<char>::empty()
    &&& pre.patch_update@ == Seq::<char>::empty()
}

/// `inst` with its lifecycle state set to `status`, all else kept.
pub open spec fn with_status(inst: Instance, status: Status) -> Instance {
    Instance { status, ..inst }
}

/// In `after`, only the instance `id` of `before` changed, and only in its
/// lifecycle state, which is now `status`.
pub open spec fn state_changed(
    before: Map<Seq<char>, Instance>,
    after: Map<Seq<char>, Instance>,
    id: Seq<char>,
    status: Status,
) -> bool {
    &&& before.contains_key(id)
    &&& after.contains_key(id)
    &&& after == before.insert(id, after[id])
    &&& same_but_state(after[id], before[id])
    &&& after[id].status == status
}

/// `a` and `b` are the same instance but for its lifecycle state (status and
/// last error).
pub open spec fn same_but_state(a: Instance, b: Instance) -> bool {
    &&& a.id == b.id
    &&& a.name == b.name
    &&& a.db_type == b.db_type
    &&& a.version == b.version
    &&& a.port == b.port
    &&& a.data_dir == b.data_dir
    &&& a.log_file == b.log_file
    &&& a.pid_file == b.pid_file
    &&& a.conf_file == b.conf_file
    &&& a.user == b.user
    &&& a.created_at == b.created_at
    &&& a.upgrade_version == b.upgrade_version
    &&& a.patch_update == b.patch_update
}


/// `after` is `before` once an engine call ended with `outcome`: on success
/// it is in the `goal` state with no error; on failure it is in the error
/// state carrying the engine's message.
pub open spec fn recorded(before: Instance, after: Instance, goal: Status, outcome: Result<(), EngineError>) -> bool {
    &&& same_but_state(after, before)
    &&& match outcome {
        Ok(()) => after.status == goal && after.last_error@ == Seq::<char>::empty(),
        Err(e) => after.status == Status::Error && after.last_error@ == e.message(),
    }
}

/// The registry went from `before` to `after` by recording `outcome` on the
/// instance `id` (see [`recorded`]), and `r` reports it: success, or the
/// engine's message as an engine error.
pub open spec fn applied(
    before: Map<Seq<char>, Instance>,
    after: Map<Seq<char>, Instance>,
    id: Seq<char>,
    goal: Status,
    outcome: Result<(), EngineError>,
    r: Result<(), ManagerError>,
) -> bool {
    &&& before.contains_key(id)
    &&& after.contains_key(id)
    &&& after == before.insert(id, after[id])
    &&& recorded(before[id], after[id], goal, outcome)
    &&& match outcome {
        Ok(()) => r is Ok,
        Err(e) => r matches Err(ManagerError::Engine(m)) && m@ == e.message(),
    }
}

/// The engine `e` was asked to stop `before`, and `after` records how that
/// ended (see [`recorded`]).
pub open spec fn stopped_by<E: Engine>(e: E, before: Instance, after: Instance) -> bool {
    exists|out: Result<(), EngineError>| #[trigger] e.may_stop(before, out) && recorded(before, after, Status::Stopped, out)
}

/// The engine `e` was asked to start `before`, and `after` records how that
/// ended (see [`recorded`]).
pub open spec fn started_by<E: Engine>(e: E, before: Instance, after: Instance) -> bool {
    exists|out: Result<(), EngineError>| #[trigger] e.may_start(before, out) && recorded(before, after, Status::Running, out)
}

/// The engine `e` was asked to start the instance `before` (in whatever
/// lifecycle state it then had), and `after` records how that ended.
pub open spec fn restarted_by<E: Engine>(e: E, before: Instance, after: Instance) -> bool {
    exists|pre: Instance| same_but_state(pre, before) && #[trigger] started_by(e, pre, after)
}

/// `inst` is a running instance of kind `db`.
pub open spec fn running_of_kind(inst: Instance, db: DbType) -> bool {
    inst.db_type == db && inst.status == Status::Running
}

/// `k` is the last position of `s` holding the id `id`.
pub open spec fn last_record(s: Seq<Instance>, id: Seq<char>, k: int) -> bool {
    &&& 0 <= k < s.len()
    &&& s[k].id@ == id
    &&& forall|j: int| k < j < s.len() ==> s[j].id@ != id
}

/// `inst` is the record `rec` as loaded: only its status may have been
/// refreshed, and only when an engine is wired for its kind.
pub open spec fn loaded_from(inst: Instance, rec: Instance, wired: bool) -> bool {
    &&& same_but_state(inst, rec)
    &&& inst.last_error == rec.last_error
    &&& !wired ==> inst.status == rec.status
}

/// The position of the instance `id` in `list`, if present.
fn position_in(list: &Vec<Instance>, id: &str) -> (r: Option<usize>)
    ensures
        match r {
            Some(j) => j < list@.len() && list@[j as int].id@ == id@,
            None => !has_id(list@, id@),
        },
{
    let mut i: usize = 0;
    while i < list.len()
        invariant
            i <= list@.len(),
            forall|j: int| 0 <= j < i ==> list@[j].id@ != id@,
        decreases list@.len() - i,
    {
        if compare(list[i].id.as_str(), id) == Order::Equal {
            return Some(i);
        }
        i = i + 1;
    }
    None
}

/// A planned patch upgrade: the package-manager command to run, and the ids
/// of the instances stopped for it, to be restarted afterwards.
pub struct UpgradePlan {
    pub command: InstallCommand,
    pub stopped: Vec<String>,
}

/// Every instance of the registry `m` is filed under its own id.
pub open spec fn keyed_by_id(m: Map<Seq<char>, Instance>) -> bool {
    forall|id: Seq<char>| #[trigger] m.contains_key(id) ==> m[id].id@ == id
}

/// Reloading a saved registry restores it: when `records` holds every
/// instance of `reg` exactly once (as [`Manager::snapshot`] hands it out) and
/// `loaded` is what [`Manager::load_all`] makes of them, the same instances
/// come back under the same ids, unchanged but for the status an engine
/// refreshes (and not even that where no engine is wired for their kind).
pub proof fn law_reload_restores_registry(
    reg: Map<Seq<char>, Instance>,
    records: Seq<Instance>,
    loaded: Map<Seq<char>, Instance>,
    wired: spec_fn(DbType) -> bool,
)
    requires
        keyed_by_id(reg),
        forall|x: Instance| #[trigger] records.to_multiset().count(x) == if reg.contains_key(x.id@)
            && reg[x.id@] == x {
            1nat
        } else {
            0nat
        },
        forall|id: Seq<char>| #[trigger] loaded.contains_key(id) == has_id(records, id),
        forall|id: Seq<char>| #[trigger] loaded.contains_key(id) ==> exists|k: int|
            last_record(records, id, k) && loaded_from(loaded[id], records[k], wired(records[k].db_type)),
    ensures
        loaded.dom() == reg.dom(),
        forall|id: Seq<char>| #[trigger] reg.contains_key(id) ==> {
            &&& same_but_state(loaded[id], reg[id])
            &&& loaded[id].last_error == reg[id].last_error
            &&& !wired(reg[id].db_type) ==> loaded[id] == reg[id]
        },
{
    records.to_multiset_ensures();
    assert forall|id: Seq<char>| #[trigger] reg.contains_key(id) implies loaded.contains_key(id) by {
        let x = reg[id];
        assert(records.to_multiset().count(x) == 1);
        assert(records.contains(x));
        let k = choose|k: int| 0 <= k < records.len() && records[k] == x;
        assert(records[k].id@ == id);
    }
    assert forall|id: Seq<char>| #[trigger] loaded.contains_key(id) implies reg.contains_key(id) && reg[id] == records[choose|k: int| last_record(records, id, k) && loaded_from(loaded[id], records[k], wired(records[k].db_type))] by {
        let k = choose|k: int| last_record(records, id, k) && loaded_from(loaded[id], records[k], wired(records[k].db_type));
        let x = records[k];
        assert(records.contains(x));
        assert(records.to_multiset().count(x) > 0);
    }
    assert(loaded.dom() =~= reg.dom());
}

/// A patch upgrade brings back what it stopped: given the registry `before`
/// the upgrade, `mid` after [`Manager::upgrade_patch`] stopped the instances
/// listed in `stopped` for engine kind `db`, and `after` once
/// [`Manager::finish_upgrade`] restarted them (each as those functions'
/// contracts state), every instance of that kind that was running before is
/// running again afterwards unless its engine refused (an error state), and
/// every other instance is as it was.
pub proof fn law_upgrade_restarts_what_it_stopped(
    before: Map<Seq<char>, Instance>,
    mid: Map<Seq<char>, Instance>,
    after: Map<Seq<char>, Instance>,
    stopped: Seq<String>,
    db: DbType,
    supports: spec_fn(DbType) -> bool,
)
    requires
        mid.dom() == before.dom(),
        forall|k: Seq<char>| #[trigger] before.contains_key(k) ==> same_but_state(mid[k], before[k]),
        forall|k: Seq<char>| #[trigger] before.contains_key(k) && !running_of_kind(before[k], db) ==> mid[k]
            == before[k],
        forall|j: int| 0 <= j < stopped.len() ==> {
            &&& before.contains_key(#[trigger] stopped[j]@)
            &&& running_of_kind(before[stopped[j]@], db)
            &&& mid[stopped[j]@].status == Status::Stopped
        },
        forall|k: Seq<char>| #[trigger] before.contains_key(k) && running_of_kind(before[k], db)
            && !key_views(stopped).contains(k) ==> mid[k].status == Status::Error || mid[k] == before[k],
        stopped.len() > 0 ==> supports(db),
        after.dom() == mid.dom(),
        forall|k: Seq<char>| #[trigger] mid.contains_key(k) && !key_views(stopped).contains(k) ==> after[k]
            == mid[k],
        forall|k: Seq<char>| #[trigger] mid.contains_key(k) && key_views(stopped).contains(k) && supports(
            mid[k].db_type,
        ) ==> after[k].status == Status::Running || after[k].status == Status::Error,
    ensures
        after.dom() == before.dom(),
        forall|k: Seq<char>| #[trigger] before.contains_key(k) && running_of_kind(before[k], db) ==> after[k].status
            == Status::Running || after[k].status == Status::Error,
        forall|k: Seq<char>| #[trigger] before.contains_key(k) && !running_of_kind(before[k], db) ==> after[k]
            == before[k],
{
    assert forall|k: Seq<char>| #[trigger] before.contains_key(k) && running_of_kind(before[k], db) implies after[k].status
        == Status::Running || after[k].status == Status::Error by {
        assert(mid.contains_key(k));
        if key_views(stopped).contains(k) {
            let j = choose|j: int| 0 <= j < key_views(stopped).len() && key_views(stopped)[j] == k;
            assert(stopped[j]@ == k);
            assert(mid[k].db_type == db);
        }
    }
    assert forall|k: Seq<char>| #[trigger] before.contains_key(k) && !running_of_kind(before[k], db) implies after[k]
        == before[k] by {
        assert(mid.contains_key(k));
        if key_views(stopped).contains(k) {
            let j = choose|j: int| 0 <= j < key_views(stopped).len() && key_views(stopped)[j] == k;
            assert(stopped[j]@ == k);
        }
    }
}

/// The directories a manager lays instances out in.
struct Layout {
    data: String,
    logs: String,
    pids: String,
    conf: String,
}

/// The instance registry and lifecycle orchestrator, over engine
/// implementations of type `E`.
pub struct Manager<E: Engine> {
    base: String,
    layout: Layout,
    engines: Vec<E>,
    kinds: Vec<DbType>,
    instances: Vec<Instance>,
    dirty: bool,
    asked: Ghost<Seq<(EngineCall, Seq<char>)>>,
}

/// A lifecycle operation the manager asks of an engine.
pub enum EngineCall {
    Create,
    Start,
    Stop,
    Delete,
}

impl<E: Engine> Manager<E> {
    /// The manager's consistency: instance ids are unique, and each wired
    /// engine is recorded with the one kind it manages.
    #[verifier::type_invariant]
    spec fn inv(self) -> bool {
        &&& ids_unique(self.instances@)
        &&& self.kinds@.len() == self.engines@.len()
        &&& self.kinds@.no_duplicates()
        &&& forall|i: int| 0 <= i < self.kinds@.len() ==> self.kinds@[i] == (#[trigger] self.engines@[i]).kind()
    }

    /// The registry: every managed instance, by id.
    pub closed spec fn view(&self) -> Map<Seq<char>, Instance> {
        registry_map(self.instances@)
    }

    /// The lifecycle calls this manager has made on its engines, in the order
    /// it made them, each with the id of the instance it concerned.
    pub closed spec fn asked(&self) -> Seq<(EngineCall, Seq<char>)> {
        self.asked@
    }

    /// The wired engine implementations, one per kind.
    pub closed spec fn wired(&self) -> Seq<E> {
        self.engines@
    }

    /// The engine wired for `db` (meaningful where [`Manager::supports`]
    /// holds).
    pub closed spec fn engine_for(&self, db: DbType) -> E {
        self.engines@[choose|i: int| 0 <= i < self.kinds@.len() && self.kinds@[i] == db]
    }

    /// Whether an engine for `db` is wired in.
    pub closed spec fn supports(&self, db: DbType) -> bool {
        self.kinds@.contains(db)
    }

    /// The base directory the manager is rooted at.
    pub closed spec fn base(&self) -> Seq<char> {
        self.base@
    }

    /// The directories under the base: data, logs, pids and conf.
    pub closed spec fn dirs(&self) -> (Seq<char>, Seq<char>, Seq<char>, Seq<char>) {
        (self.layout.data@, self.layout.logs@, self.layout.pids@, self.layout.conf@)
    }

    /// Whether the registry changed since it was last handed out for saving.
    pub closed spec fn is_dirty(&self) -> bool {
        self.dirty
    }

    /// `inst` is the record `rec` as loaded (see [`loaded_from`]), its status
    /// refreshed by the engine wired for its kind, if any.
    pub open spec fn loaded_by(&self, inst: Instance, rec: Instance) -> bool {
        &&& loaded_from(inst, rec, self.supports(rec.db_type))
        &&& self.supports(rec.db_type) ==> self.engine_for(rec.db_type).may_report(rec, inst.status)
    }

    /// Whether some instance holds `port`.
    pub open spec fn port_taken(&self, port: u16) -> bool {
        port_held(self@, port)
    }

    /// The registry files every instance under its own id.
    pub proof fn lemma_keyed_by_id(&self)
        ensures
            keyed_by_id(self@),
    {
        assert forall|id: Seq<char>| #[trigger] self@.contains_key(id) implies self@[id].id@ == id by {
            let k = choose|k: int| 0 <= k < self.instances@.len() && self.instances@[k].id@ == id;
        }
    }

    /// Builds a manager rooted at `base` with the data/logs/pids/conf layout
    /// under it, wiring the supplied engine implementations by the kind each
    /// reports (a later engine replaces an earlier one of the same kind). The
    /// registry starts empty; [`Manager::load_all`] fills it.
    pub fn new(base: &str, engines: Vec<E>) -> (m: Manager<E>)
        ensures
            m@ == Map::<Seq<char>, Instance>::empty(),
            m.base() == base@,
            m.dirs() == (
                spec_join(base@, "data"@),
                spec_join(base@, "logs"@),
                spec_join(base@, "pids"@),
                spec_join(base@, "conf"@),
            ),
            !m.is_dirty(),
            m.asked() == Seq::<(EngineCall, Seq<char>)>::empty(),
            forall|d: DbType| m.supports(d) <==> exists|i: int| 0 <= i < engines@.len() && (#[trigger] engines@[i]).kind() == d,
            forall|d: DbType| m.supports(d) ==> m.engine_for(d).kind() == d,
    {
        let layout = Layout {
            data: join(base, "data"),
            logs: join(base, "logs"),
            pids: join(base, "pids"),
            conf: join(base, "conf"),
        };
        let mut source = engines;
        let mut wired: Vec<E> = Vec::new();
        let mut kinds: Vec<DbType> = Vec::new();
        while source.len() > 0
            invariant
                kinds@.len() == wired@.len(),
                kinds@.no_duplicates(),
                source@.len() <= engines@.len(),
                source@ == engines@.take(source@.len() as int),
                wired@.len() + source@.len() <= engines@.len(),
                forall|i: int| 0 <= i < kinds@.len() ==> kinds@[i] == (#[trigger] wired@[i]).kind(),
                forall|i: int| 0 <= i < wired@.len() ==> exists|j: int| source@.len() <= j < engines@.len() && engines@[j] == #[trigger] wired@[i],
                forall|j: int| source@.len() <= j < engines@.len() ==> kinds@.contains((#[trigger] engines@[j]).kind()),
            decreases source.len(),
        {
            let ghost before_source = source@;
            let e = source.pop().unwrap();
            let k = e.db_type();
            proof {
                assert(before_source.drop_last() == source@);
                assert(engines@[source@.len() as int] == e);
            }
            let mut seen = false;
            let mut j: usize = 0;
            while j < kinds.len()
                invariant
                    j <= kinds.len(),
                    seen == kinds@.take(j as int).contains(k),
                decreases kinds.len() - j,
            {
                let here = kinds[j] == k;
                proof {
                    let t = kinds@.take(j as int);
                    assert(kinds@.take(j + 1) =~= t.push(kinds@[j as int]));
                    if t.push(kinds@[j as int]).contains(k) && !here {
                        let w = choose|w: int| 0 <= w < j + 1 && t.push(kinds@[j as int])[w] == k;
                        assert(t[w] == k);
                    }
                    if here {
                        assert(t.push(kinds@[j as int])[j as int] == k);
                    }
                    if t.contains(k) {
                        let w = choose|w: int| 0 <= w < j && t[w] == k;
                        assert(t.push(kinds@[j as int])[w] == k);
                    }
                }
                if here {
                    seen = true;
                }
                j = j + 1;
            }
            assert(kinds@.take(kinds.len() as int) =~= kinds@);
            let ghost kinds_before = kinds@;
            let ghost wired_before = wired@;
            if !seen {
                wired.push(e);
                kinds.push(k);
                proof {
                    assert(kinds@.no_duplicates()) by {
                        assert forall|a: int, b: int| 0 <= a < kinds@.len() && 0 <= b < kinds@.len() && a != b implies kinds@[a] != kinds@[b] by {
                            if a == kinds_before.len() {
                                assert(!kinds_before.contains(k));
                                assert(kinds@[b] == kinds_before[b]);
                            } else if b == kinds_before.len() {
                                assert(!kinds_before.contains(k));
                                assert(kinds@[a] == kinds_before[a]);
                            }
                        }
                    }
                    assert(wired@[wired_before.len() as int] == engines@[source@.len() as int]);
                }
            }
            proof {
                assert forall|i: int| 0 <= i < wired@.len() implies exists|j: int| source@.len() <= j < engines@.len() && engines@[j] == #[trigger] wired@[i] by {
                    if i < wired_before.len() {
                        assert(wired@[i] == wired_before[i]);
                        let j = choose|j: int| before_source.len() <= j < engines@.len() && engines@[j] == wired_before[i];
                    } else {
                        assert(engines@[source@.len() as int] == wired@[i]);
                    }
                }
                assert forall|j: int| source@.len() <= j < engines@.len() implies kinds@.contains((#[trigger] engines@[j]).kind()) by {
                    if j == source@.len() {
                        if seen {
                            let w = choose|w: int| 0 <= w < kinds_before.len() && kinds_before[w] == k;
                            assert(kinds@[w] == k);
                        } else {
                            assert(kinds@[kinds_before.len() as int] == k);
                        }
                    } else {
                        let w = choose|w: int| 0 <= w < kinds_before.len() && kinds_before[w] == engines@[j].kind();
                        assert(kinds@[w] == kinds_before[w]);
                    }
                }
            }
        }
        let ghost final_wired = wired@;
        assert(source@.len() == 0);
        let m = Manager {
            base: base.to_owned(),
            layout,
            engines: wired,
            kinds,
            instances: Vec::new(),
            dirty: false,
            asked: Ghost(Seq::empty()),
        };
        assert(m@ =~= Map::<Seq<char>, Instance>::empty());
        proof {
            assert forall|d: DbType| m.supports(d) implies exists|i: int| 0 <= i < engines@.len() && (#[trigger] engines@[i]).kind() == d by {
                let w = choose|w: int| 0 <= w < m.kinds@.len() && m.kinds@[w] == d;
                assert(final_wired[w] == m.engines@[w]);
                let j = choose|j: int| 0 <= j < engines@.len() && engines@[j] == final_wired[w];
                assert(engines@[j].kind() == d);
            }
            assert forall|d: DbType| m.supports(d) implies m.engine_for(d).kind() == d by {
                let w = choose|w: int| 0 <= w < m.kinds@.len() && m.kinds@[w] == d;
            }
        }
        m
    }

    /// The base directory the manager is rooted at.
    pub fn base_dir(&self) -> (r: &str)
        ensures
            r@ == self.base(),
    {
        self.base.as_str()
    }

    /// The position of the instance `id` in the registry, if present.
    fn position(&self, id: &str) -> (r: Option<usize>)
        ensures
            match r {
                Some(i) => i < self.instances@.len() && self.instances@[i as int].id@ == id@,
                None => !self@.contains_key(id@),
            },
    {
        let mut i: usize = 0;
        while i < self.instances.len()
            invariant
                i <= self.instances@.len(),
                forall|j: int| 0 <= j < i ==> self.instances@[j].id@ != id@,
            decreases self.instances@.len() - i,
        {
            if compare(self.instances[i].id.as_str(), id) == Order::Equal {
                return Some(i);
            }
            i = i + 1;
        }
        None
    }

    /// The position of the engine wired for `db`, if any.
    fn engine_index(&self, db: DbType) -> (r: Option<usize>)
        ensures
            match r {
                Some(i) => i < self.engines@.len() && i < self.kinds@.len() && self.kinds@[i as int] == db
                    && self.engines@[i as int] == self.engine_for(db),
                None => !self.supports(db),
            },
    {
        proof {
            use_type_invariant(self);
        }
        let mut i: usize = 0;
        while i < self.kinds.len()
            invariant
                i <= self.kinds@.len(),
                self.kinds@.len() == self.engines@.len(),
                self.kinds@.no_duplicates(),
                forall|j: int| 0 <= j < i ==> self.kinds@[j] != db,
            decreases self.kinds@.len() - i,
        {
            if self.kinds[i] == db {
                proof {
                    let w = choose|w: int| 0 <= w < self.kinds@.len() && self.kinds@[w] == db;
                    assert(self.kinds@[i as int] == db);
                    assert(w == i);
                }
                return Some(i);
            }
            i = i + 1;
        }
        None
    }

    /// Every managed instance, each once, in registry order.
    pub fn list(&self) -> (r: Vec<Instance>)
        ensures
            ids_unique(r@),
            forall|i: int| 0 <= i < r@.len() ==> #[trigger] self@.contains_key(r@[i].id@) && self@[r@[i].id@] == r@[i],
            forall|id: Seq<char>| #[trigger] self@.contains_key(id) ==> has_id(r@, id),
    {
        proof {
            use_type_invariant(self);
        }
        let mut r: Vec<Instance> = Vec::new();
        let mut i: usize = 0;
        while i < self.instances.len()
            invariant
                i <= self.instances@.len(),
                ids_unique(self.instances@),
                r@ == self.instances@.take(i as int),
            decreases self.instances@.len() - i,
        {
            r.push(self.instances[i].copy());
            proof {
                assert(self.instances@.take(i + 1) =~= self.instances@.take(i as int).push(self.instances@[i as int]));
            }
            i = i + 1;
        }
        proof {
            assert(self.instances@.take(i as int) =~= self.instances@);
            assert forall|k: int| 0 <= k < r@.len() implies #[trigger] self@.contains_key(r@[k].id@) && self@[r@[k].id@] == r@[k] by {
                lemma_registry_at(self.instances@, k);
            }
        }
        r
    }

    /// A copy of the instance `id`, if it exists.
    pub fn get(&self, id: &str) -> (r: Option<Instance>)
        ensures
            match r {
                Some(inst) => self@.contains_key(id@) && self@[id@] == inst,
                None => !self@.contains_key(id@),
            },
    {
        proof {
            use_type_invariant(self);
        }
        match self.position(id) {
            Some(i) => {
                proof {
                    lemma_registry_at(self.instances@, i as int);
                }
                Some(self.instances[i].copy())
            },
            None => None,
        }
    }

    /// Whether some instance holds `port`.
    fn port_in_use(&self, port: u16) -> (r: bool)
        ensures
            r == self.port_taken(port),
    {
        proof {
            use_type_invariant(self);
        }
        let mut i: usize = 0;
        while i < self.instances.len()
            invariant
                i <= self.instances@.len(),
                ids_unique(self.instances@),
                forall|j: int| 0 <= j < i ==> self.instances@[j].port != port,
            decreases self.instances@.len() - i,
        {
            if self.instances[i].port == port {
                proof {
                    lemma_registry_at(self.instances@, i as int);
                }
                return true;
            }
            i = i + 1;
        }
        proof {
            assert forall|id: Seq<char>| #[trigger] self@.contains_key(id) implies self@[id].port != port by {
                let k = choose|k: int| 0 <= k < self.instances@.len() && self.instances@[k].id@ == id;
                lemma_registry_at(self.instances@, k);
            }
        }
        false
    }

    /// `port` was passed over by the scan: some instance holds it, or the
    /// host probe reported it unavailable.
    pub open spec fn passed_over<P: Fn(u16) -> bool>(&self, port: u16, port_available: P) -> bool {
        self.port_taken(port) || call_ensures(port_available, (port,), false)
    }

    /// `chosen` is the port `create` settles on before it asks the engine: the
    /// requested port, held by no instance and reported free by the host
    /// probe; or, with none requested, the first port of the scan window that
    /// no instance holds and the probe reports free.
    pub open spec fn port_cleared<P: Fn(u16) -> bool>(
        &self,
        db: DbType,
        port: Option<u16>,
        port_available: P,
        chosen: u16,
    ) -> bool {
        &&& !self.port_taken(chosen)
        &&& call_ensures(port_available, (chosen,), true)
        &&& match port {
            Some(p) => chosen == p,
            None => {
                &&& spec_default_port(db) <= chosen < spec_default_port(db) + PORT_SCAN_SPAN
                &&& forall|q: u16|
                    spec_default_port(db) <= q < chosen ==> #[trigger] self.passed_over(
                        q,
                        port_available,
                    )
            },
        }
    }

    /// The next free port for `db`: scanning upward from the engine's default
    /// port over [`PORT_SCAN_SPAN`] ports, the first one that no instance holds
    /// and that `port_available` reports free on the host.
    pub fn next_free_port<P: Fn(u16) -> bool>(&self, db: DbType, port_available: &P) -> (r: Result<
        u16,
        ManagerError,
    >)
        requires
            forall|p: u16| port_available.requires((p,)),
        ensures
            match r {
                Ok(p) => {
                    &&& spec_default_port(db) <= p < spec_default_port(db) + PORT_SCAN_SPAN
                    &&& !self.port_taken(p)
                    &&& call_ensures(*port_available, (p,), true)
                    &&& forall|q: u16|
                        spec_default_port(db) <= q < p ==> #[trigger] self.passed_over(
                            q,
                            *port_available,
                        )
                },
                Err(e) => {
                    &&& e == ManagerError::NoFreePort(db)
                    &&& forall|q: u16|
                        spec_default_port(db) <= q < spec_default_port(db) + PORT_SCAN_SPAN
                            ==> #[trigger] self.passed_over(q, *port_available)
                },
            },
    {
        let base = default_port(db);
        let mut offset: u16 = 0;
        while offset < PORT_SCAN_SPAN
            invariant
                base == spec_default_port(db),
                offset <= PORT_SCAN_SPAN,
                forall|p: u16| port_available.requires((p,)),
                forall|q: u16| base <= q < base + offset ==> #[trigger] self.passed_over(q, *port_available),
            decreases PORT_SCAN_SPAN - offset,
        {
            let port = base + offset;
            if !self.port_in_use(port) {
                if port_available(port) {
                    return Ok(port);
                }
            }
            offset = offset + 1;
        }
        Err(ManagerError::NoFreePort(db))
    }

    /// What one draw from the random source gives: with no bytes (the source
    /// failed), the random-source error; with bytes whose hex rendering no
    /// instance holds, that rendering as the new id; with bytes whose
    /// rendering is taken, `None`, so the caller draws again.
    pub fn draw_id(&self, bytes: Option<[u8; 6]>) -> (r: Option<Result<String, ManagerError>>)
        ensures
            match bytes {
                None => r matches Some(Err(ManagerError::Invalid(m))) && m@ == RNG_UNAVAILABLE@,
                Some(b) => if self@.contains_key(hex_of(b@)) {
                    r is None
                } else {
                    r matches Some(Ok(id)) && id@ == hex_of(b@)
                },
            },
    {
        match bytes {
            None => Some(Err(ManagerError::Invalid(RNG_UNAVAILABLE.to_owned()))),
            Some(b) => {
                let id = hex_id(&b);
                if self.position(id.as_str()).is_none() {
                    Some(Ok(id))
                } else {
                    None
                }
            },
        }
    }

    /// A fresh random id: twelve lowercase hex characters that no instance
    /// holds, drawn again for as long as a draw gives a taken id (each draw
    /// settled by [`Manager::draw_id`]). Fails when the system's random source
    /// fails.
    fn fresh_id(&self) -> (r: Result<String, ManagerError>)
        ensures
            match r {
                Ok(id) => !self@.contains_key(id@) && is_random_id(id@),
                Err(e) => e matches ManagerError::Invalid(m) && m@ == RNG_UNAVAILABLE@,
            },
    {
        let mut attempts: u64 = 0;
        while attempts < u64::MAX
            decreases u64::MAX - attempts,
        {
            let bytes = random_bytes();
            match self.draw_id(bytes) {
                Some(Ok(id)) => {
                    proof {
                        let b = bytes.unwrap();
                        assert(b@.len() == 6);
                    }
                    return Ok(id);
                },
                Some(Err(e)) => {
                    return Err(e);
                },
                None => {},
            }
            attempts = attempts + 1;
        }
        Err(ManagerError::Invalid(RNG_UNAVAILABLE.to_owned()))
    }

    /// Settles an engine's initialization of the new instance `pre` (as the
    /// engine left it): on success `pre` is registered as stopped and handed
    /// back, and the registry is marked for saving; on failure the engine's
    /// error is returned with its message and nothing changes.
    pub fn register_created(&mut self, pre: Instance, outcome: Result<(), EngineError>) -> (r: Result<
        Instance,
        ManagerError,
    >)
        requires
            !old(self)@.contains_key(pre.id@),
        ensures
            final(self).asked() == old(self).asked(),
            final(self).base() == old(self).base(),
            final(self).dirs() == old(self).dirs(),
            forall|d: DbType| final(self).supports(d) == old(self).supports(d),
            forall|d: DbType| final(self).engine_for(d) == old(self).engine_for(d),
            match outcome {
                Ok(()) => {
                    &&& r matches Ok(inst) && inst == with_status(pre, Status::Stopped)
                    &&& final(self)@ == old(self)@.insert(pre.id@, with_status(pre, Status::Stopped))
                    &&& final(self).is_dirty()
                },
                Err(e) => {
                    &&& r matches Err(ManagerError::Engine(m)) && m@ == e.message()
                    &&& final(self)@ == old(self)@
                    &&& final(self).is_dirty() == old(self).is_dirty()
                },
            },
    {
        proof {
            use_type_invariant(&*self);
        }
        match outcome {
            Ok(()) => {},
            Err(e) => {
                return Err(ManagerError::from(e));
            },
        }
        let mut inst = pre;
        inst.status = Status::Stopped;
        let out = inst.copy();
        proof {
            lemma_registry_push(self.instances@, inst);
        }
        let mut list: Vec<Instance> = Vec::new();
        std::mem::swap(&mut list, &mut self.instances);
        list.push(inst);
        self.instances = list;
        self.dirty = true;
        Ok(out)
    }

    /// Creates and initializes a new instance.
    ///
    /// Rejects an empty (all-whitespace) name, an engine kind with no engine
    /// wired, and a requested port that another instance holds or that the
    /// host probe reports busy, all before the engine is asked; allocates a
    /// free port (see [`Manager::next_free_port`]) when none is requested;
    /// draws a fresh id (each draw settled by [`Manager::draw_id`]), lays out
    /// the instance's own paths, lets the engine initialize it, and settles the
    /// engine's outcome with [`Manager::register_created`], which registers the
    /// instance as stopped only after the engine succeeds.
    pub fn create<P: Fn(u16) -> bool>(
        &mut self,
        name: &str,
        db: DbType,
        version: &str,
        port: Option<u16>,
        port_available: &P,
    ) -> (r: Result<Instance, ManagerError>)
        requires
            forall|p: u16| port_available.requires((p,)),
        ensures
            final(self).base() == old(self).base(),
            final(self).dirs() == old(self).dirs(),
            forall|d: DbType| final(self).supports(d) == old(self).supports(d),
            trim(name@).len() == 0 ==> (r matches Err(ManagerError::Invalid(m)) && m@
                == "instance name must not be empty"@),
            trim(name@).len() > 0 && !old(self).supports(db) ==> (r matches Err(
                ManagerError::Invalid(m),
            ) && m@ == "unsupported engine: "@ + db.id()),
            trim(name@).len() > 0 && old(self).supports(db) && (port matches Some(p)
                && old(self).port_taken(p)) ==> (r matches Err(ManagerError::Invalid(m)) && m@
                == "port "@ + dec(port->0 as nat) + " is already in use"@),
            trim(name@).len() > 0 && old(self).supports(db) && (port matches Some(p) && forall|b: bool|
                #[trigger] call_ensures(*port_available, (p,), b) ==> !b) ==> (r matches Err(
                ManagerError::Invalid(m),
            ) && m@ == "port "@ + dec(port->0 as nat) + " is already in use"@),
            r is Err ==> final(self)@ == old(self)@ && final(self).is_dirty() == old(self).is_dirty(),
            r matches Err(ManagerError::Invalid(m)) ==> trim(name@).len() == 0 || !old(self).supports(db)
                || (port matches Some(p) && (old(self).port_taken(p) || call_ensures(
                *port_available,
                (p,),
                false,
            )) && m@ == "port "@ + dec(p as nat) + " is already in use"@) || (m@ == RNG_UNAVAILABLE@
                && exists|c: u16| #[trigger] old(self).port_cleared(db, port, *port_available, c)),
            trim(name@).len() > 0 && old(self).supports(db) && port is None && (forall|q: u16|
                spec_default_port(db) <= q < spec_default_port(db) + PORT_SCAN_SPAN ==> #[trigger] old(
                self,
            ).port_taken(q) || (forall|b: bool| #[trigger] call_ensures(*port_available, (q,), b) ==> !b))
                ==> (r matches Err(ManagerError::NoFreePort(d)) && d == db),
            r matches Err(ManagerError::NoFreePort(d)) ==> {
                &&& d == db
                &&& port is None
                &&& forall|q: u16|
                    spec_default_port(db) <= q < spec_default_port(db) + PORT_SCAN_SPAN
                        ==> #[trigger] old(self).passed_over(q, *port_available)
            },
            r matches Err(ManagerError::Engine(m)) ==> trim(name@).len() > 0 && old(self).supports(db)
                && exists|pre: Instance, e: EngineError|
                #[trigger] old(self).engine_for(db).may_create(pre, Err(e)) && m@ == e.message()
                    && handed_to_engine(pre, name@, db, version@, old(self).dirs())
                    && !old(self)@.contains_key(pre.id@)
                    && old(self).port_cleared(db, port, *port_available, pre.port)
                    && final(self).asked() == old(self).asked().push((EngineCall::Create, pre.id@)),
            !(r is Ok) && !(r matches Err(ManagerError::Engine(_))) ==> final(self).asked() == old(self).asked(),
            !(r matches Err(ManagerError::NotFound(_))),
            !(r matches Err(ManagerError::Store(_))),
            r matches Ok(inst) ==> {
                &&& trim(name@).len() > 0
                &&& old(self).supports(db)
                &&& !old(self)@.contains_key(inst.id@)
                &&& is_random_id(inst.id@)
                &&& final(self)@ == old(self)@.insert(inst.id@, inst)
                &&& inst.name@ == trim(name@)
                &&& inst.db_type == db
                &&& inst.version@ == version@
                &&& !old(self).port_taken(inst.port)
                &&& inst.user@ == spec_default_user(db)
                &&& (db is Mysql || db is Mariadb) ==> inst.user@ == "root"@
                &&& db is Postgres ==> inst.user@ == "postgres"@
                &&& (db is Valkey || db is Redis || db is Mongodb) ==> inst.user@.len() == 0
                &&& exists|pre: Instance, outcome: Result<(), EngineError>|
                    #[trigger] old(self).engine_for(db).may_create(pre, outcome) && outcome is Ok
                        && handed_to_engine(pre, name@, db, version@, old(self).dirs()) && pre.id
                        == inst.id && pre.port == inst.port
                        && old(self).port_cleared(db, port, *port_available, pre.port)
                &&& match port {
                    Some(p) => inst.port == p && call_ensures(*port_available, (p,), true),
                    None => {
                        &&& spec_default_port(db) <= inst.port < spec_default_port(db)
                            + PORT_SCAN_SPAN
                        &&& call_ensures(*port_available, (inst.port,), true)
                        &&& forall|q: u16|
                            spec_default_port(db) <= q < inst.port ==> #[trigger] old(self).passed_over(q, *port_available)
                    },
                }
                &&& laid_out(inst, old(self).dirs(), db)
                &&& final(self).asked() == old(self).asked().push((EngineCall::Create, inst.id@))
                &&& inst.status == Status::Stopped
                &&& final(self).is_dirty()
            },
    {
        proof {
            use_type_invariant(&*self);
        }
        let name_v = trim_chars(&chars_of(name));
        if name_v.len() == 0 {
            return Err(ManagerError::Invalid("instance name must not be empty".to_owned()));
        }
        let ei = match self.engine_index(db) {
            Some(i) => i,
            None => {
                return Err(ManagerError::Invalid(concat("unsupported engine: ", db.as_str())));
            },
        };
        let ghost requested = port;
        let port = match port {
            Some(p) => {
                if self.port_in_use(p) || !port_available(p) {
                    let mut m = "port ".to_owned();
                    push_dec(&mut m, p as u64);
                    m.append(" is already in use");
                    return Err(ManagerError::Invalid(m));
                }
                p
            },
            None => match self.next_free_port(db, port_available) {
                Ok(p) => p,
                Err(e) => {
                    return Err(e);
                },
            },
        };
        assert(old(self).port_cleared(db, requested, *port_available, port));
        let id = match self.fresh_id() {
            Ok(id) => id,
            Err(e) => {
                return Err(e);
            },
        };
        let data_dir = join(self.layout.data.as_str(), id.as_str());
        let log_file = join(self.layout.logs.as_str(), concat(id.as_str(), ".log").as_str());
        let pid_file = join(self.layout.pids.as_str(), concat(id.as_str(), ".pid").as_str());
        let conf_file = match conf_ext(db) {
            Some(ext) => {
                let mut file = concat(id.as_str(), ".");
                file.append(ext);
                join(self.layout.conf.as_str(), file.as_str())
            },
            None => String::new(),
        };
        let mut inst = Instance {
            id,
            name: string_of(&name_v),
            db_type: db,
            version: version.to_owned(),
            port,
            data_dir,
            log_file,
            pid_file,
            conf_file,
            user: default_user(db).to_owned(),
            status: Status::Init,
            created_at: String::new(),
            last_error: String::new(),
            upgrade_version: String::new(),
            patch_update: String::new(),
        };
        let ghost before = inst;
        assert(handed_to_engine(before, name@, db, version@, self.dirs()));
        let res = self.ask_create(ei, &mut inst);
        let ghost outcome = res;
        proof {
            law_default_users(db);
        }
        let r = self.register_created(inst, res);
        assert(old(self).engine_for(db).may_create(before, outcome));
        r
    }

    /// Records a new lifecycle state for the instance at position `i`.
    fn set_state(&mut self, i: usize, status: Status, last_error: String)
        requires
            i < old(self).instances@.len(),
        ensures
            state_changed(old(self)@, final(self)@, old(self).instances@[i as int].id@, status),
            final(self)@[old(self).instances@[i as int].id@].last_error == last_error,
            final(self).is_dirty(),
            final(self).asked() == old(self).asked(),
            final(self).base() == old(self).base(),
            final(self).dirs() == old(self).dirs(),
            final(self).kinds == old(self).kinds,
            final(self).engines == old(self).engines,
            final(self).instances@.len() == old(self).instances@.len(),
            forall|j: int|
                0 <= j < old(self).instances@.len() ==> #[trigger] final(self).instances@[j].id
                    == old(self).instances@[j].id,
    {
        proof {
            use_type_invariant(&*self);
        }
        let mut inst = self.instances[i].copy();
        inst.status = status;
        inst.last_error = last_error;
        proof {
            lemma_registry_at(self.instances@, i as int);
            lemma_registry_update(self.instances@, i as int, inst);
        }
        let mut list: Vec<Instance> = Vec::new();
        std::mem::swap(&mut list, &mut self.instances);
        list.set(i, inst);
        self.instances = list;
        self.dirty = true;
        proof {
            lemma_registry_at(self.instances@, i as int);
        }
    }

    /// Asks the engine at position `ei` to start, stop or remove `inst`, and
    /// notes the call; nothing else changes.
    fn ask_engine(&mut self, ei: usize, inst: &Instance, call: EngineCall) -> (r: Result<(), EngineError>)
        requires
            ei < old(self).engines@.len(),
            !(call is Create),
        ensures
            final(self).asked() == old(self).asked().push((call, inst.id@)),
            final(self).engines == old(self).engines,
            final(self).kinds == old(self).kinds,
            final(self).instances == old(self).instances,
            final(self).dirty == old(self).dirty,
            final(self).base == old(self).base,
            final(self).layout == old(self).layout,
            call is Start ==> old(self).engines@[ei as int].may_start(*inst, r),
            call is Stop ==> old(self).engines@[ei as int].may_stop(*inst, r),
            call is Delete ==> old(self).engines@[ei as int].may_delete(*inst, r),
    {
        proof {
            use_type_invariant(&*self);
        }
        let r = match call {
            EngineCall::Start => self.engines[ei].start(inst),
            EngineCall::Stop => self.engines[ei].stop(inst),
            _ => self.engines[ei].delete(inst),
        };
        self.asked = Ghost(self.asked@.push((call, inst.id@)));
        r
    }

    /// Asks the engine at position `ei` to initialize `inst`, and notes the
    /// call; nothing else changes.
    fn ask_create(&mut self, ei: usize, inst: &mut Instance) -> (r: Result<(), EngineError>)
        requires
            ei < old(self).engines@.len(),
        ensures
            final(self).asked() == old(self).asked().push((EngineCall::Create, old(inst).id@)),
            final(self).engines == old(self).engines,
            final(self).kinds == old(self).kinds,
            final(self).instances == old(self).instances,
            final(self).dirty == old(self).dirty,
            final(self).base == old(self).base,
            final(self).layout == old(self).layout,
            old(self).engines@[ei as int].may_create(*old(inst), r),
            final(inst).id == old(inst).id,
            final(inst).name == old(inst).name,
            final(inst).db_type == old(inst).db_type,
            final(inst).version == old(inst).version,
            final(inst).port == old(inst).port,
            final(inst).data_dir == old(inst).data_dir,
            final(inst).log_file == old(inst).log_file,
            final(inst).pid_file == old(inst).pid_file,
            final(inst).conf_file == old(inst).conf_file,
            final(inst).user == old(inst).user,
    {
        proof {
            use_type_invariant(&*self);
        }
        let r = self.engines[ei].create(inst);
        self.asked = Ghost(self.asked@.push((EngineCall::Create, inst.id@)));
        r
    }

    /// Runs `start` (or `stop`) on the engine of instance `id`, notes the
    /// call, and hands back what the engine reported, changing nothing else.
    fn with_engine(&mut self, id: &str, starting: bool) -> (r: Result<Result<(), EngineError>, ManagerError>)
        ensures
            final(self)@ == old(self)@,
            final(self).is_dirty() == old(self).is_dirty(),
            final(self).base() == old(self).base(),
            final(self).dirs() == old(self).dirs(),
            forall|d: DbType| final(self).supports(d) == old(self).supports(d),
            forall|d: DbType| final(self).engine_for(d) == old(self).engine_for(d),
            !old(self)@.contains_key(id@) ==> (r matches Err(ManagerError::NotFound(m)) && m@ == id@),
            old(self)@.contains_key(id@) && !old(self).supports(old(self)@[id@].db_type) ==> (r matches Err(
                ManagerError::Invalid(m),
            ) && m@ == "unsupported engine: "@ + old(self)@[id@].db_type.id()),
            match r {
                Ok(out) => {
                    &&& old(self)@.contains_key(id@)
                    &&& old(self).supports(old(self)@[id@].db_type)
                    &&& starting ==> old(self).engine_for(old(self)@[id@].db_type).may_start(old(self)@[id@], out)
                    &&& !starting ==> old(self).engine_for(old(self)@[id@].db_type).may_stop(old(self)@[id@], out)
                    &&& final(self).asked() == old(self).asked().push(
                        (if starting { EngineCall::Start } else { EngineCall::Stop }, id@),
                    )
                },
                Err(ManagerError::NotFound(_)) => !old(self)@.contains_key(id@) && final(self).asked() == old(self).asked(),
                Err(ManagerError::Invalid(_)) => old(self)@.contains_key(id@) && !old(self).supports(old(self)@[id@].db_type)
                    && final(self).asked() == old(self).asked(),
                Err(_) => false,
            },
    {
        proof {
            use_type_invariant(&*self);
        }
        let i = match self.position(id) {
            Some(i) => i,
            None => {
                return Err(ManagerError::NotFound(id.to_owned()));
            },
        };
        proof {
            lemma_registry_at(self.instances@, i as int);
        }
        let inst = self.instances[i].copy();
        let ei = match self.engine_index(inst.db_type) {
            Some(ei) => ei,
            None => {
                return Err(ManagerError::Invalid(concat("unsupported engine: ", inst.db_type.as_str())));
            },
        };
        if starting {
            Ok(self.ask_engine(ei, &inst, EngineCall::Start))
        } else {
            Ok(self.ask_engine(ei, &inst, EngineCall::Stop))
        }
    }

    /// Records how an engine call on instance `id` ended: success puts the
    /// instance in the `goal` state with no error; a failure puts it in the
    /// error state carrying the engine's message, which is also the result.
    pub fn record_outcome(&mut self, id: &str, goal: Status, outcome: Result<(), EngineError>) -> (r: Result<
        (),
        ManagerError,
    >)
        ensures
            final(self).base() == old(self).base(),
            final(self).dirs() == old(self).dirs(),
            forall|d: DbType| final(self).supports(d) == old(self).supports(d),
            forall|d: DbType| final(self).engine_for(d) == old(self).engine_for(d),
            final(self).asked() == old(self).asked(),
            !old(self)@.contains_key(id@) ==> (r matches Err(ManagerError::NotFound(m)) && m@ == id@
                && final(self)@ == old(self)@ && final(self).is_dirty() == old(self).is_dirty()),
            old(self)@.contains_key(id@) ==> applied(old(self)@, final(self)@, id@, goal, outcome, r)
                && final(self).is_dirty(),
    {
        proof {
            use_type_invariant(&*self);
        }
        let i = match self.position(id) {
            Some(i) => i,
            None => {
                return Err(ManagerError::NotFound(id.to_owned()));
            },
        };
        proof {
            lemma_registry_at(self.instances@, i as int);
        }
        match outcome {
            Ok(()) => {
                self.set_state(i, goal, String::new());
                Ok(())
            },
            Err(e) => {
                let msg = e.to_string();
                self.set_state(i, Status::Error, msg.clone());
                Err(ManagerError::Engine(msg))
            },
        }
    }

    /// Starts the instance; the engine's outcome is recorded as by
    /// [`Manager::record_outcome`] (running, or the error state with the
    /// engine's message).
    pub fn start(&mut self, id: &str) -> (r: Result<(), ManagerError>)
        ensures
            final(self).base() == old(self).base(),
            final(self).dirs() == old(self).dirs(),
            forall|d: DbType| final(self).supports(d) == old(self).supports(d),
            forall|d: DbType| final(self).engine_for(d) == old(self).engine_for(d),
            !old(self)@.contains_key(id@) ==> (r matches Err(ManagerError::NotFound(m)) && m@ == id@),
            old(self)@.contains_key(id@) && !old(self).supports(old(self)@[id@].db_type) ==> (r matches Err(
                ManagerError::Invalid(m),
            ) && m@ == "unsupported engine: "@ + old(self)@[id@].db_type.id()),
            final(self).asked() == if old(self)@.contains_key(id@) && old(self).supports(
                old(self)@[id@].db_type,
            ) {
                old(self).asked().push((EngineCall::Start, id@))
            } else {
                old(self).asked()
            },
            old(self)@.contains_key(id@) && old(self).supports(old(self)@[id@].db_type) ==> {
                &&& exists|out: Result<(), EngineError>|
                    old(self).engine_for(old(self)@[id@].db_type).may_start(old(self)@[id@], out)
                        && applied(old(self)@, final(self)@, id@, Status::Running, out, r)
                &&& final(self).is_dirty()
            },
            match r {
                Ok(()) => {
                    &&& state_changed(old(self)@, final(self)@, id@, Status::Running)
                    &&& final(self)@[id@].last_error@ == Seq::<char>::empty()
                    &&& final(self).is_dirty()
                },
                Err(ManagerError::Engine(m)) => {
                    &&& old(self).supports(old(self)@[id@].db_type)
                    &&& state_changed(old(self)@, final(self)@, id@, Status::Error)
                    &&& final(self)@[id@].last_error@ == m@
                    &&& final(self).is_dirty()
                },
                Err(ManagerError::NotFound(_)) => {
                    &&& !old(self)@.contains_key(id@)
                    &&& final(self)@ == old(self)@
                    &&& final(self).is_dirty() == old(self).is_dirty()
                },
                Err(ManagerError::Invalid(_)) => {
                    &&& old(self)@.contains_key(id@)
                    &&& !old(self).supports(old(self)@[id@].db_type)
                    &&& final(self)@ == old(self)@
                    &&& final(self).is_dirty() == old(self).is_dirty()
                },
                Err(_) => false,
            },
    {
        proof {
            use_type_invariant(&*self);
        }
        match self.with_engine(id, true) {
            Err(e) => Err(e),
            Ok(out) => self.record_outcome(id, Status::Running, out),
        }
    }

    /// Stops the instance; the engine's outcome is recorded as by
    /// [`Manager::record_outcome`] (stopped, or the error state with the
    /// engine's message).
    pub fn stop(&mut self, id: &str) -> (r: Result<(), ManagerError>)
        ensures
            final(self).base() == old(self).base(),
            final(self).dirs() == old(self).dirs(),
            forall|d: DbType| final(self).supports(d) == old(self).supports(d),
            forall|d: DbType| final(self).engine_for(d) == old(self).engine_for(d),
            !old(self)@.contains_key(id@) ==> (r matches Err(ManagerError::NotFound(m)) && m@ == id@),
            old(self)@.contains_key(id@) && !old(self).supports(old(self)@[id@].db_type) ==> (r matches Err(
                ManagerError::Invalid(m),
            ) && m@ == "unsupported engine: "@ + old(self)@[id@].db_type.id()),
            final(self).asked() == if old(self)@.contains_key(id@) && old(self).supports(
                old(self)@[id@].db_type,
            ) {
                old(self).asked().push((EngineCall::Stop, id@))
            } else {
                old(self).asked()
            },
            old(self)@.contains_key(id@) && old(self).supports(old(self)@[id@].db_type) ==> {
                &&& exists|out: Result<(), EngineError>|
                    old(self).engine_for(old(self)@[id@].db_type).may_stop(old(self)@[id@], out)
                        && applied(old(self)@, final(self)@, id@, Status::Stopped, out, r)
                &&& final(self).is_dirty()
            },
            match r {
                Ok(()) => {
                    &&& state_changed(old(self)@, final(self)@, id@, Status::Stopped)
                    &&& final(self)@[id@].last_error@ == Seq::<char>::empty()
                    &&& final(self).is_dirty()
                },
                Err(ManagerError::Engine(m)) => {
                    &&& old(self).supports(old(self)@[id@].db_type)
                    &&& state_changed(old(self)@, final(self)@, id@, Status::Error)
                    &&& final(self)@[id@].last_error@ == m@
                    &&& final(self).is_dirty()
                },
                Err(ManagerError::NotFound(_)) => {
                    &&& !old(self)@.contains_key(id@)
                    &&& final(self)@ == old(self)@
                    &&& final(self).is_dirty() == old(self).is_dirty()
                },
                Err(ManagerError::Invalid(_)) => {
                    &&& old(self)@.contains_key(id@)
                    &&& !old(self).supports(old(self)@[id@].db_type)
                    &&& final(self)@ == old(self)@
                    &&& final(self).is_dirty() == old(self).is_dirty()
                },
                Err(_) => false,
            },
    {
        proof {
            use_type_invariant(&*self);
        }
        match self.with_engine(id, false) {
            Err(e) => Err(e),
            Ok(out) => self.record_outcome(id, Status::Stopped, out),
        }
    }

    /// Stops the instance (ignoring a refusal) and lets its engine remove it
    /// and its data directory; drops it from the registry once the engine
    /// succeeds. An instance whose kind has no engine wired is dropped as is.
    pub fn delete(&mut self, id: &str) -> (r: Result<(), ManagerError>)
        ensures
            final(self).base() == old(self).base(),
            final(self).dirs() == old(self).dirs(),
            forall|d: DbType| final(self).supports(d) == old(self).supports(d),
            forall|d: DbType| final(self).engine_for(d) == old(self).engine_for(d),
            !old(self)@.contains_key(id@) ==> (r matches Err(ManagerError::NotFound(m)) && m@ == id@),
            old(self)@.contains_key(id@) && !old(self).supports(old(self)@[id@].db_type) ==> r is Ok,
            final(self).asked() == if old(self)@.contains_key(id@) && old(self).supports(
                old(self)@[id@].db_type,
            ) {
                old(self).asked().push((EngineCall::Stop, id@)).push((EngineCall::Delete, id@))
            } else {
                old(self).asked()
            },
            old(self)@.contains_key(id@) && old(self).supports(old(self)@[id@].db_type) ==> exists|
                stopped: Result<(), EngineError>,
                out: Result<(), EngineError>,
            |
                {
                    &&& #[trigger] old(self).engine_for(old(self)@[id@].db_type).may_stop(old(self)@[id@], stopped)
                    &&& #[trigger] old(self).engine_for(old(self)@[id@].db_type).may_delete(old(self)@[id@], out)
                    &&& match out {
                        Ok(()) => r is Ok,
                        Err(err) => r matches Err(ManagerError::Engine(m)) && m@ == err.message(),
                    }
                },
            match r {
                Ok(()) => {
                    &&& old(self)@.contains_key(id@)
                    &&& final(self)@ == old(self)@.remove(id@)
                    &&& final(self).is_dirty()
                },
                Err(ManagerError::Engine(_)) => {
                    &&& old(self)@.contains_key(id@)
                    &&& old(self).supports(old(self)@[id@].db_type)
                    &&& final(self)@ == old(self)@
                    &&& final(self).is_dirty() == old(self).is_dirty()
                },
                Err(ManagerError::NotFound(_)) => final(self)@ == old(self)@ && final(self).is_dirty() == old(self).is_dirty(),
                Err(_) => false,
            },
    {
        proof {
            use_type_invariant(&*self);
        }
        let i = match self.position(id) {
            Some(i) => i,
            None => {
                return Err(ManagerError::NotFound(id.to_owned()));
            },
        };
        proof {
            lemma_registry_at(self.instances@, i as int);
        }
        let inst = self.instances[i].copy();
        if let Some(ei) = self.engine_index(inst.db_type) {
            let stopped = self.ask_engine(ei, &inst, EngineCall::Stop);
            let out = self.ask_engine(ei, &inst, EngineCall::Delete);
            proof {
                let e = self.engine_for(inst.db_type);
                assert(e.may_stop(inst, stopped) && e.may_delete(inst, out));
            }
            match out {
                Ok(()) => {},
                Err(e) => {
                    return Err(ManagerError::from(e));
                },
            }
        }
        proof {
            lemma_registry_remove(self.instances@, i as int);
        }
        let mut list: Vec<Instance> = Vec::new();
        std::mem::swap(&mut list, &mut self.instances);
        list.remove(i);
        self.instances = list;
        self.dirty = true;
        Ok(())
    }

    /// The instance's live status, as its engine reports it (the stored
    /// status when its kind has no engine wired).
    pub fn status(&self, id: &str) -> (r: Result<Status, ManagerError>)
        ensures
            !self@.contains_key(id@) ==> (r matches Err(ManagerError::NotFound(m)) && m@ == id@),
            self@.contains_key(id@) ==> r is Ok,
            self@.contains_key(id@) && !self.supports(self@[id@].db_type) ==> r == Ok::<Status, ManagerError>(self@[id@].status),
            self@.contains_key(id@) && self.supports(self@[id@].db_type) ==> (r matches Ok(s) && self.engine_for(
                self@[id@].db_type,
            ).may_report(self@[id@], s)),
    {
        proof {
            use_type_invariant(self);
        }
        let i = match self.position(id) {
            Some(i) => i,
            None => {
                return Err(ManagerError::NotFound(id.to_owned()));
            },
        };
        proof {
            lemma_registry_at(self.instances@, i as int);
        }
        let inst = &self.instances[i];
        match self.engine_index(inst.db_type) {
            Some(ei) => Ok(self.engines[ei].check_status(inst)),
            None => Ok(inst.status),
        }
    }

    /// Every instance id, in registry order.
    fn ids(&self) -> (r: Vec<String>)
        ensures
            r@.len() == self.instances@.len(),
            forall|i: int| 0 <= i < r@.len() ==> #[trigger] r@[i]@ == self.instances@[i].id@,
    {
        let mut r: Vec<String> = Vec::new();
        let mut i: usize = 0;
        while i < self.instances.len()
            invariant
                i <= self.instances@.len(),
                r@.len() == i,
                forall|k: int| 0 <= k < i ==> #[trigger] r@[k]@ == self.instances@[k].id@,
            decreases self.instances@.len() - i,
        {
            r.push(self.instances[i].id.clone());
            i = i + 1;
        }
        r
    }

    /// Stops every instance, best-effort: refusals are recorded as error
    /// states and otherwise ignored. Used on shutdown.
    pub fn stop_all(&mut self)
        ensures
            final(self).base() == old(self).base(),
            final(self).dirs() == old(self).dirs(),
            forall|d: DbType| final(self).supports(d) == old(self).supports(d),
            forall|d: DbType| final(self).engine_for(d) == old(self).engine_for(d),
            final(self)@.dom() == old(self)@.dom(),
            forall|id: Seq<char>| #[trigger] old(self)@.contains_key(id) ==> {
                &&& same_but_state(final(self)@[id], old(self)@[id])
                &&& if old(self).supports(old(self)@[id].db_type) {
                    stopped_by(old(self).engine_for(old(self)@[id].db_type), old(self)@[id], final(self)@[id])
                } else {
                    final(self)@[id] == old(self)@[id]
                }
            },
            old(self).is_dirty() ==> final(self).is_dirty(),
            (exists|id: Seq<char>| #[trigger] old(self)@.contains_key(id) && old(self).supports(old(self)@[id].db_type))
                ==> final(self).is_dirty(),
    {
        proof {
            use_type_invariant(&*self);
        }
        let ids = self.ids();
        let ghost start = self@;
        proof {
            assert forall|k: int| 0 <= k < ids@.len() implies #[trigger] start.contains_key(ids@[k]@) by {
                lemma_registry_at(self.instances@, k);
            }
            assert forall|a: int, b: int| 0 <= a < ids@.len() && 0 <= b < ids@.len() && a != b implies ids@[a]@ != ids@[b]@ by {}
            assert forall|id: Seq<char>| #[trigger] start.contains_key(id) implies exists|k: int| 0 <= k < ids@.len() && ids@[k]@ == id by {
                let k = choose|k: int| 0 <= k < self.instances@.len() && self.instances@[k].id@ == id;
                assert(ids@[k]@ == id);
            }
        }
        let mut i: usize = 0;
        while i < ids.len()
            invariant
                i <= ids@.len(),
                self.base() == old(self).base(),
                self.dirs() == old(self).dirs(),
                forall|d: DbType| self.supports(d) == old(self).supports(d),
                forall|d: DbType| self.engine_for(d) == old(self).engine_for(d),
                start == old(self)@,
                forall|k: int| 0 <= k < ids@.len() ==> #[trigger] start.contains_key(ids@[k]@),
                forall|a: int, b: int| 0 <= a < ids@.len() && 0 <= b < ids@.len() && a != b ==> ids@[a]@ != ids@[b]@,
                forall|id: Seq<char>| #[trigger] start.contains_key(id) ==> exists|k: int| 0 <= k < ids@.len() && ids@[k]@ == id,
                self@.dom() == start.dom(),
                forall|id: Seq<char>| #[trigger] start.contains_key(id) ==> same_but_state(self@[id], start[id]),
                forall|id: Seq<char>| #[trigger] start.contains_key(id) && !self.supports(start[id].db_type) ==> self@[id] == start[id],
                forall|k: int| 0 <= k < i && self.supports(start[ids@[k]@].db_type) ==> stopped_by(old(self).engine_for(start[ids@[k]@].db_type), start[ids@[k]@], self@[#[trigger] ids@[k]@]),
                forall|id: Seq<char>| #[trigger] start.contains_key(id) && (forall|k: int| 0 <= k < i ==> ids@[k]@ != id) ==> self@[id] == start[id],
                old(self).is_dirty() ==> self.is_dirty(),
                (exists|k: int| 0 <= k < i && old(self).supports(#[trigger] start[ids@[k]@].db_type)) ==> self.is_dirty(),
            decreases ids@.len() - i,
        {
            let ghost before = self@;
            let outcome = self.stop(ids[i].as_str());
            proof {
                let cur = ids@[i as int]@;
                assert(start.contains_key(cur));
                assert(before.contains_key(cur));
                assert(before[cur].db_type == start[cur].db_type);
                if self.supports(start[cur].db_type) {
                    assert(before[cur] == start[cur]);
                    assert(stopped_by(old(self).engine_for(start[cur].db_type), start[cur], self@[cur]));
                }
                assert forall|id: Seq<char>| #[trigger] start.contains_key(id) && id != cur implies self@[id] == before[id] by {}
            }
            i = i + 1;
        }
        proof {
            assert forall|id: Seq<char>| #[trigger] old(self)@.contains_key(id) implies {
                &&& same_but_state(self@[id], old(self)@[id])
                &&& if old(self).supports(old(self)@[id].db_type) {
                    stopped_by(old(self).engine_for(old(self)@[id].db_type), old(self)@[id], self@[id])
                } else {
                    self@[id] == old(self)@[id]
                }
            } by {
                let k = choose|k: int| 0 <= k < ids@.len() && ids@[k]@ == id;
            }
        }
    }

    /// Plans the installation of the engine binary for instance `id`.
    ///
    /// An engine the host cannot supply (see [`install::blocked_reason`]) is
    /// refused with its reason, which is also recorded on the instance, now
    /// needing an install; this check comes before the snap refusal. A refused
    /// install (inside a snap, or on a platform without a supported package
    /// manager) leaves the registry as it was. Otherwise the instance is marked
    /// as installing and the package-manager command to run is returned; the
    /// caller runs it and reports the outcome to [`Manager::finish_install`].
    pub fn install(&mut self, id: &str, in_snap: bool, platform: Platform) -> (r: Result<
        InstallCommand,
        ManagerError,
    >)
        ensures
            final(self).base() == old(self).base(),
            final(self).dirs() == old(self).dirs(),
            forall|d: DbType| final(self).supports(d) == old(self).supports(d),
            !old(self)@.contains_key(id@) ==> (r matches Err(ManagerError::NotFound(m)) && m@ == id@
                && final(self)@ == old(self)@ && final(self).is_dirty() == old(self).is_dirty()),
            old(self)@.contains_key(id@) ==> {
                let inst = old(self)@[id@];
                let plan = spec_install(inst.db_type, inst.version@, in_snap, platform);
                &&& spec_blocked_reason(inst.db_type) matches Some(reason) ==> {
                    &&& r matches Err(ManagerError::Engine(m)) && m@ == reason
                    &&& state_changed(old(self)@, final(self)@, id@, Status::NeedsInstall)
                    &&& final(self)@[id@].last_error@ == reason
                    &&& final(self).is_dirty()
                }
                &&& spec_blocked_reason(inst.db_type) is None ==> match plan {
                    Err(reason) => {
                        &&& r matches Err(ManagerError::Engine(m)) && m@ == reason
                        &&& final(self)@ == old(self)@
                        &&& final(self).is_dirty() == old(self).is_dirty()
                    },
                    Ok(cmd) => {
                        &&& r matches Ok(c) && (c.program@, string_views(c.args@)) == cmd
                        &&& state_changed(old(self)@, final(self)@, id@, Status::Installing)
                        &&& final(self)@[id@].last_error@ == Seq::<char>::empty()
                        &&& final(self).is_dirty()
                    },
                }
            },
    {
        proof {
            use_type_invariant(&*self);
        }
        let i = match self.position(id) {
            Some(i) => i,
            None => {
                return Err(ManagerError::NotFound(id.to_owned()));
            },
        };
        proof {
            lemma_registry_at(self.instances@, i as int);
        }
        let db = self.instances[i].db_type;
        let version = self.instances[i].version.clone();
        if let Some(reason) = blocked_reason(db, version.as_str()) {
            self.set_state(i, Status::NeedsInstall, reason.clone());
            return Err(ManagerError::Engine(reason));
        }
        match install_plan(db, version.as_str(), in_snap, platform) {
            Err(m) => Err(ManagerError::Engine(m)),
            Ok(cmd) => {
                self.set_state(i, Status::Installing, String::new());
                Ok(cmd)
            },
        }
    }

    /// Records how the install command planned by [`Manager::install`] ended.
    ///
    /// A failure (carrying the installer's message) leaves the instance
    /// needing an install, with the message recorded, and is reported as an
    /// engine error. On success the instance becomes stopped and is then
    /// started, as [`Manager::start`] does.
    pub fn finish_install(&mut self, id: &str, outcome: Result<(), String>) -> (r: Result<
        (),
        ManagerError,
    >)
        ensures
            final(self).base() == old(self).base(),
            final(self).dirs() == old(self).dirs(),
            forall|d: DbType| final(self).supports(d) == old(self).supports(d),
            forall|d: DbType| final(self).engine_for(d) == old(self).engine_for(d),
            !old(self)@.contains_key(id@) ==> (r matches Err(ManagerError::NotFound(m)) && m@ == id@
                && final(self)@ == old(self)@ && final(self).is_dirty() == old(self).is_dirty()),
            old(self)@.contains_key(id@) ==> match outcome {
                Err(msg) => {
                    &&& r matches Err(ManagerError::Engine(m)) && m@ == msg@
                    &&& state_changed(old(self)@, final(self)@, id@, Status::NeedsInstall)
                    &&& final(self)@[id@].last_error@ == msg@
                    &&& final(self).is_dirty()
                },
                Ok(()) => {
                    &&& old(self).supports(old(self)@[id@].db_type) ==> restarted_by(
                        old(self).engine_for(old(self)@[id@].db_type),
                        old(self)@[id@],
                        final(self)@[id@],
                    )
                    &&& final(self).is_dirty()
                    &&& final(self)@.dom() == old(self)@.dom()
                    &&& final(self)@ == old(self)@.insert(id@, final(self)@[id@])
                    &&& same_but_state(final(self)@[id@], old(self)@[id@])
                    &&& match r {
                        Ok(()) => final(self)@[id@].status == Status::Running
                            && final(self)@[id@].last_error@ == Seq::<char>::empty(),
                        Err(ManagerError::Engine(m)) => final(self)@[id@].status == Status::Error
                            && final(self)@[id@].last_error@ == m@,
                        Err(ManagerError::Invalid(_)) => !old(self).supports(old(self)@[id@].db_type)
                            && final(self)@[id@].status == Status::Stopped,
                        Err(_) => false,
                    }
                },
            },
    {
        proof {
            use_type_invariant(&*self);
        }
        let i = match self.position(id) {
            Some(i) => i,
            None => {
                return Err(ManagerError::NotFound(id.to_owned()));
            },
        };
        proof {
            lemma_registry_at(self.instances@, i as int);
        }
        match outcome {
            Err(msg) => {
                self.set_state(i, Status::NeedsInstall, msg.clone());
                Err(ManagerError::Engine(msg))
            },
            Ok(()) => {
                self.set_state(i, Status::Stopped, String::new());
                let ghost mid = self@;
                let ghost mid_engine = self.engine_for(mid[id@].db_type);
                let r = self.start(id);
                proof {
                    assert(mid.contains_key(id@));
                    if old(self).supports(old(self)@[id@].db_type) {
                        assert(mid_engine == old(self).engine_for(old(self)@[id@].db_type));
                        assert(started_by(mid_engine, mid[id@], self@[id@]));
                        assert(same_but_state(mid[id@], old(self)@[id@]));
                    }
                }
                r
            },
        }
    }

    /// Stops every running instance of kind `db`, best-effort (a refusal is
    /// recorded as an error state), and returns the ids of those it stopped.
    fn stop_kind(&mut self, db: DbType) -> (r: Vec<String>)
        ensures
            final(self).base() == old(self).base(),
            final(self).dirs() == old(self).dirs(),
            forall|d: DbType| final(self).supports(d) == old(self).supports(d),
            forall|d: DbType| final(self).engine_for(d) == old(self).engine_for(d),
            forall|id: Seq<char>| #[trigger] old(self)@.contains_key(id) && running_of_kind(old(self)@[id], db)
                && old(self).supports(db) ==> stopped_by(old(self).engine_for(db), old(self)@[id], final(self)@[id]),
            final(self)@.dom() == old(self)@.dom(),
            forall|id: Seq<char>| #[trigger] old(self)@.contains_key(id) ==> same_but_state(final(self)@[id], old(self)@[id]),
            forall|id: Seq<char>| #[trigger] old(self)@.contains_key(id) && !running_of_kind(old(self)@[id], db)
                ==> final(self)@[id] == old(self)@[id],
            forall|j: int| 0 <= j < r@.len() ==> {
                &&& old(self)@.contains_key(#[trigger] r@[j]@)
                &&& running_of_kind(old(self)@[r@[j]@], db)
                &&& final(self)@[r@[j]@].status == Status::Stopped
            },
            forall|id: Seq<char>| #[trigger] old(self)@.contains_key(id) && running_of_kind(old(self)@[id], db)
                && !key_views(r@).contains(id) ==> if old(self).supports(db) {
                final(self)@[id].status == Status::Error
            } else {
                final(self)@[id] == old(self)@[id]
            },
            old(self).is_dirty() ==> final(self).is_dirty(),
            r@.len() > 0 ==> old(self).supports(db),
    {
        proof {
            use_type_invariant(&*self);
        }
        let ids = self.ids();
        let ghost start = self@;
        proof {
            assert forall|k: int| 0 <= k < ids@.len() implies #[trigger] start.contains_key(ids@[k]@) by {
                lemma_registry_at(self.instances@, k);
            }
            assert forall|a: int, b: int| 0 <= a < ids@.len() && 0 <= b < ids@.len() && a != b implies ids@[a]@ != ids@[b]@ by {}
            assert forall|id: Seq<char>| #[trigger] start.contains_key(id) implies exists|k: int| 0 <= k < ids@.len() && ids@[k]@ == id by {
                let k = choose|k: int| 0 <= k < self.instances@.len() && self.instances@[k].id@ == id;
                assert(ids@[k]@ == id);
            }
        }
        let mut r: Vec<String> = Vec::new();
        let mut i: usize = 0;
        while i < ids.len()
            invariant
                i <= ids@.len(),
                self.base() == old(self).base(),
                self.dirs() == old(self).dirs(),
                forall|d: DbType| self.supports(d) == old(self).supports(d),
                forall|d: DbType| self.engine_for(d) == old(self).engine_for(d),
                forall|k: int| 0 <= k < i && running_of_kind(start[ids@[k]@], db) && old(self).supports(db)
                    ==> stopped_by(old(self).engine_for(db), start[ids@[k]@], self@[#[trigger] ids@[k]@]),
                start == old(self)@,
                forall|k: int| 0 <= k < ids@.len() ==> #[trigger] start.contains_key(ids@[k]@),
                forall|a: int, b: int| 0 <= a < ids@.len() && 0 <= b < ids@.len() && a != b ==> ids@[a]@ != ids@[b]@,
                forall|id: Seq<char>| #[trigger] start.contains_key(id) ==> exists|k: int| 0 <= k < ids@.len() && ids@[k]@ == id,
                self@.dom() == start.dom(),
                forall|id: Seq<char>| #[trigger] start.contains_key(id) ==> same_but_state(self@[id], start[id]),
                forall|id: Seq<char>| #[trigger] start.contains_key(id) && (forall|k: int| 0 <= k < i ==> ids@[k]@ != id) ==> self@[id] == start[id],
                forall|k: int| 0 <= k < i && !running_of_kind(start[ids@[k]@], db) ==> self@[#[trigger] ids@[k]@] == start[ids@[k]@],
                forall|k: int| 0 <= k < i && running_of_kind(start[ids@[k]@], db) && !key_views(r@).contains(ids@[k]@)
                    ==> if old(self).supports(db) {
                    self@[#[trigger] ids@[k]@].status == Status::Error
                } else {
                    self@[ids@[k]@] == start[ids@[k]@]
                },
                forall|j: int| 0 <= j < r@.len() ==> exists|k: int| 0 <= k < i && ids@[k]@ == (#[trigger] r@[j])@,
                r@.len() > 0 ==> old(self).supports(db),
                forall|j: int| 0 <= j < r@.len() ==> {
                    &&& start.contains_key(#[trigger] r@[j]@)
                    &&& running_of_kind(start[r@[j]@], db)
                    &&& self@[r@[j]@].status == Status::Stopped
                },
                old(self).is_dirty() ==> self.is_dirty(),
            decreases ids@.len() - i,
        {
            let ghost before = self@;
            let ghost r_before = r@;
            let ghost cur = ids@[i as int]@;
            proof {
                assert(start.contains_key(cur));
                assert(forall|k: int| 0 <= k < i ==> ids@[k]@ != cur);
                assert(before[cur] == start[cur]);
                assert forall|j: int| 0 <= j < r@.len() implies (#[trigger] r@[j])@ != cur by {
                    let k = choose|k: int| 0 <= k < i && ids@[k]@ == r@[j]@;
                }
            }
            let affected = match self.get(ids[i].as_str()) {
                Some(inst) => inst.db_type == db && inst.status == Status::Running,
                None => false,
            };
            if affected {
                match self.stop(ids[i].as_str()) {
                    Ok(()) => {
                        r.push(ids[i].clone());
                        proof {
                            assert(key_views(r@) =~= key_views(r_before).push(cur));
                        }
                    },
                    Err(_) => {
                        proof {
                            assert(self.supports(db) ==> self@[cur].status == Status::Error);
                            assert(!self.supports(db) ==> self@[cur] == before[cur]);
                        }
                    },
                }
            } else {
                proof {
                    assert(!running_of_kind(start[cur], db));
                }
            }
            proof {
                if affected && old(self).supports(db) {
                    assert(before[cur] == start[cur]);
                    assert(stopped_by(old(self).engine_for(db), start[cur], self@[cur]));
                }
                assert forall|id: Seq<char>| #[trigger] start.contains_key(id) && id != cur implies self@[id] == before[id] by {}
                assert forall|k: int| 0 <= k < i + 1 && running_of_kind(start[ids@[k]@], db) && old(self).supports(db)
                    implies stopped_by(old(self).engine_for(db), start[ids@[k]@], self@[#[trigger] ids@[k]@]) by {
                    if k < i {
                        assert(ids@[k]@ != cur);
                    }
                }
                assert forall|k: int| 0 <= k < i + 1 && running_of_kind(start[ids@[k]@], db) && !key_views(r@).contains(ids@[k]@)
                    implies if old(self).supports(db) {
                    self@[#[trigger] ids@[k]@].status == Status::Error
                } else {
                    self@[ids@[k]@] == start[ids@[k]@]
                } by {
                    if k < i {
                        assert(ids@[k]@ != cur);
                        if key_views(r_before).contains(ids@[k]@) {
                            let w = choose|w: int| 0 <= w < key_views(r_before).len() && key_views(r_before)[w] == ids@[k]@;
                            assert(key_views(r@)[w] == ids@[k]@);
                        }
                    } else if affected {
                        if key_views(r@).contains(cur) == false && r@.len() > r_before.len() {
                            assert(key_views(r@)[r_before.len() as int] == cur);
                        }
                    }
                }
                assert forall|j: int| 0 <= j < r@.len() implies exists|k: int| 0 <= k < i + 1 && ids@[k]@ == (#[trigger] r@[j])@ by {
                    if j < r_before.len() {
                        assert(r@[j] == r_before[j]);
                        let k = choose|k: int| 0 <= k < i && ids@[k]@ == r_before[j]@;
                    } else {
                        assert(ids@[i as int]@ == r@[j]@);
                    }
                }
                assert forall|j: int| 0 <= j < r@.len() implies {
                    &&& start.contains_key(#[trigger] r@[j]@)
                    &&& running_of_kind(start[r@[j]@], db)
                    &&& self@[r@[j]@].status == Status::Stopped
                } by {
                    if j < r_before.len() {
                        assert(r@[j] == r_before[j]);
                        assert(r_before[j]@ != cur);
                    }
                }
            }
            i = i + 1;
        }
        proof {
            assert forall|id: Seq<char>| #[trigger] old(self)@.contains_key(id) && running_of_kind(old(self)@[id], db)
                && old(self).supports(db) implies stopped_by(old(self).engine_for(db), old(self)@[id], self@[id]) by {
                let k = choose|k: int| 0 <= k < ids@.len() && ids@[k]@ == id;
            }
            assert forall|id: Seq<char>| #[trigger] old(self)@.contains_key(id) && !running_of_kind(old(self)@[id], db)
                implies self@[id] == old(self)@[id] by {
                let k = choose|k: int| 0 <= k < ids@.len() && ids@[k]@ == id;
            }
            assert forall|id: Seq<char>| #[trigger] old(self)@.contains_key(id) && running_of_kind(old(self)@[id], db)
                && !key_views(r@).contains(id) implies if old(self).supports(db) {
                self@[id].status == Status::Error
            } else {
                self@[id] == old(self)@[id]
            } by {
                let k = choose|k: int| 0 <= k < ids@.len() && ids@[k]@ == id;
            }
        }
        r
    }

    /// Plans a patch upgrade of the engine behind instance `id`: the same
    /// checks and refusals as [`Manager::install`]; when the command can run,
    /// every running instance of that engine kind is stopped first
    /// (best-effort) and the plan names them so that
    /// [`Manager::finish_upgrade`] restarts them once the command has run.
    pub fn upgrade_patch(&mut self, id: &str, in_snap: bool, platform: Platform) -> (r: Result<
        UpgradePlan,
        ManagerError,
    >)
        ensures
            final(self).base() == old(self).base(),
            final(self).dirs() == old(self).dirs(),
            forall|d: DbType| final(self).supports(d) == old(self).supports(d),
            !old(self)@.contains_key(id@) ==> (r matches Err(ManagerError::NotFound(m)) && m@ == id@
                && final(self)@ == old(self)@ && final(self).is_dirty() == old(self).is_dirty()),
            old(self)@.contains_key(id@) ==> {
                let inst = old(self)@[id@];
                let db = inst.db_type;
                let plan = spec_install(db, inst.version@, in_snap, platform);
                &&& spec_blocked_reason(db) matches Some(reason) ==> {
                    &&& r matches Err(ManagerError::Engine(m)) && m@ == reason
                    &&& state_changed(old(self)@, final(self)@, id@, Status::NeedsInstall)
                    &&& final(self)@[id@].last_error@ == reason
                    &&& final(self).is_dirty()
                }
                &&& spec_blocked_reason(db) is None ==> match plan {
                    Err(reason) => {
                        &&& r matches Err(ManagerError::Engine(m)) && m@ == reason
                        &&& final(self)@ == old(self)@
                        &&& final(self).is_dirty() == old(self).is_dirty()
                    },
                    Ok(cmd) => r matches Ok(p) && {
                        &&& (p.command.program@, string_views(p.command.args@)) == cmd
                        &&& final(self)@.dom() == old(self)@.dom()
                        &&& forall|k: Seq<char>| #[trigger] old(self)@.contains_key(k) ==> same_but_state(
                            final(self)@[k],
                            old(self)@[k],
                        )
                        &&& forall|k: Seq<char>| #[trigger] old(self)@.contains_key(k) && !running_of_kind(
                            old(self)@[k],
                            db,
                        ) ==> final(self)@[k] == old(self)@[k]
                        &&& forall|j: int| 0 <= j < p.stopped@.len() ==> {
                            &&& old(self)@.contains_key(#[trigger] p.stopped@[j]@)
                            &&& running_of_kind(old(self)@[p.stopped@[j]@], db)
                            &&& final(self)@[p.stopped@[j]@].status == Status::Stopped
                        }
                        &&& forall|k: Seq<char>| #[trigger] old(self)@.contains_key(k) && running_of_kind(
                            old(self)@[k],
                            db,
                        ) && !key_views(p.stopped@).contains(k) ==> final(self)@[k].status == Status::Error
                            || final(self)@[k] == old(self)@[k]
                        &&& old(self).is_dirty() ==> final(self).is_dirty()
                        &&& p.stopped@.len() > 0 ==> old(self).supports(db)
                        &&& forall|k: Seq<char>| #[trigger] old(self)@.contains_key(k) && running_of_kind(
                            old(self)@[k],
                            db,
                        ) && old(self).supports(db) ==> stopped_by(old(self).engine_for(db), old(self)@[k], final(self)@[k])
                    },
                }
            },
    {
        proof {
            use_type_invariant(&*self);
        }
        let i = match self.position(id) {
            Some(i) => i,
            None => {
                return Err(ManagerError::NotFound(id.to_owned()));
            },
        };
        proof {
            lemma_registry_at(self.instances@, i as int);
        }
        let db = self.instances[i].db_type;
        let version = self.instances[i].version.clone();
        if let Some(reason) = blocked_reason(db, version.as_str()) {
            self.set_state(i, Status::NeedsInstall, reason.clone());
            return Err(ManagerError::Engine(reason));
        }
        match install_plan(db, version.as_str(), in_snap, platform) {
            Err(m) => Err(ManagerError::Engine(m)),
            Ok(command) => {
                let stopped = self.stop_kind(db);
                Ok(UpgradePlan { command, stopped })
            },
        }
    }

    /// Starts each instance of `ids` that is registered, best-effort: a
    /// refusal is recorded as an error state and otherwise ignored.
    fn start_each(&mut self, ids: &Vec<String>)
        ensures
            final(self).base() == old(self).base(),
            final(self).dirs() == old(self).dirs(),
            forall|d: DbType| final(self).supports(d) == old(self).supports(d),
            forall|d: DbType| final(self).engine_for(d) == old(self).engine_for(d),
            forall|id: Seq<char>| #[trigger] old(self)@.contains_key(id) && key_views(ids@).contains(id) && old(self).supports(old(self)@[id].db_type)
                ==> restarted_by(old(self).engine_for(old(self)@[id].db_type), old(self)@[id], final(self)@[id]),
            final(self)@.dom() == old(self)@.dom(),
            forall|id: Seq<char>| #[trigger] old(self)@.contains_key(id) ==> same_but_state(final(self)@[id], old(self)@[id]),
            forall|id: Seq<char>| #[trigger] old(self)@.contains_key(id) && !key_views(ids@).contains(id)
                ==> final(self)@[id] == old(self)@[id],
            forall|id: Seq<char>| #[trigger] old(self)@.contains_key(id) && key_views(ids@).contains(id) && old(self).supports(old(self)@[id].db_type) ==> final(self)@[id].status == Status::Running || final(self)@[id].status == Status::Error,
            old(self).is_dirty() ==> final(self).is_dirty(),
    {
        let ghost start = self@;
        let mut i: usize = 0;
        proof {
            assert(key_views(ids@.take(0)) =~= Seq::<Seq<char>>::empty());
        }
        while i < ids.len()
            invariant
                i <= ids@.len(),
                self.base() == old(self).base(),
                self.dirs() == old(self).dirs(),
                forall|d: DbType| self.supports(d) == old(self).supports(d),
                forall|d: DbType| self.engine_for(d) == old(self).engine_for(d),
                forall|id: Seq<char>| #[trigger] start.contains_key(id) && key_views(ids@.take(i as int)).contains(id)
                    && self.supports(start[id].db_type) ==> restarted_by(old(self).engine_for(start[id].db_type), start[id], self@[id]),
                start == old(self)@,
                self@.dom() == start.dom(),
                forall|id: Seq<char>| #[trigger] start.contains_key(id) ==> same_but_state(self@[id], start[id]),
                forall|id: Seq<char>| #[trigger] start.contains_key(id) && !key_views(ids@.take(i as int)).contains(id)
                    ==> self@[id] == start[id],
                forall|id: Seq<char>| #[trigger] start.contains_key(id) && key_views(ids@.take(i as int)).contains(id)
                    && self.supports(start[id].db_type) ==> self@[id].status == Status::Running || self@[id].status
                    == Status::Error,
                old(self).is_dirty() ==> self.is_dirty(),
            decreases ids@.len() - i,
        {
            let ghost before = self@;
            let ghost cur = ids@[i as int]@;
            let _ = self.start(ids[i].as_str());
            proof {
                let pre = key_views(ids@.take(i as int));
                let post = key_views(ids@.take(i + 1));
                assert(post =~= pre.push(cur));
                assert forall|id: Seq<char>| #[trigger] start.contains_key(id) implies same_but_state(self@[id], start[id]) by {
                    if id != cur {
                        assert(self@[id] == before[id]);
                    }
                }
                assert forall|id: Seq<char>| #[trigger] start.contains_key(id) && !post.contains(id) implies self@[id] == start[id] by {
                    assert(id != cur) by {
                        assert(post[i as int] == cur);
                    }
                    if pre.contains(id) {
                        let w = choose|w: int| 0 <= w < pre.len() && pre[w] == id;
                        assert(post[w] == id);
                    }
                    assert(self@[id] == before[id]);
                }
                if start.contains_key(cur) && self.supports(start[cur].db_type) {
                    assert(before.contains_key(cur));
                    assert(started_by(old(self).engine_for(start[cur].db_type), before[cur], self@[cur]));
                    assert(same_but_state(before[cur], start[cur]));
                    assert(restarted_by(old(self).engine_for(start[cur].db_type), start[cur], self@[cur]));
                }
                assert forall|id: Seq<char>| #[trigger] start.contains_key(id) && post.contains(id) && self.supports(
                    start[id].db_type,
                ) implies restarted_by(old(self).engine_for(start[id].db_type), start[id], self@[id]) by {
                    if id != cur {
                        let w = choose|w: int| 0 <= w < post.len() && post[w] == id;
                        assert(pre[w] == id);
                        assert(self@[id] == before[id]);
                    }
                }
                assert forall|id: Seq<char>| #[trigger] start.contains_key(id) && post.contains(id) && self.supports(
                    start[id].db_type,
                ) implies self@[id].status == Status::Running || self@[id].status == Status::Error by {
                    if id != cur {
                        let w = choose|w: int| 0 <= w < post.len() && post[w] == id;
                        assert(pre[w] == id);
                        assert(self@[id] == before[id]);
                    }
                }
            }
            i = i + 1;
        }
        proof {
            assert(ids@.take(ids@.len() as int) =~= ids@);
        }
    }

    /// Restarts the instances a patch upgrade stopped (best-effort; a refusal
    /// is recorded as an error state) and reports how the upgrade command
    /// ended: its failure message as an engine error, or success.
    pub fn finish_upgrade(&mut self, stopped: &Vec<String>, outcome: Result<(), String>) -> (r: Result<
        (),
        ManagerError,
    >)
        ensures
            final(self).base() == old(self).base(),
            final(self).dirs() == old(self).dirs(),
            forall|d: DbType| final(self).supports(d) == old(self).supports(d),
            final(self)@.dom() == old(self)@.dom(),
            forall|id: Seq<char>| #[trigger] old(self)@.contains_key(id) ==> same_but_state(final(self)@[id], old(self)@[id]),
            forall|id: Seq<char>| #[trigger] old(self)@.contains_key(id) && !key_views(stopped@).contains(id)
                ==> final(self)@[id] == old(self)@[id],
            forall|id: Seq<char>| #[trigger] old(self)@.contains_key(id) && key_views(stopped@).contains(id) && old(self).supports(old(self)@[id].db_type) ==> final(self)@[id].status == Status::Running || final(self)@[id].status == Status::Error,
            forall|d: DbType| final(self).engine_for(d) == old(self).engine_for(d),
            forall|id: Seq<char>| #[trigger] old(self)@.contains_key(id) && key_views(stopped@).contains(id) && old(self).supports(old(self)@[id].db_type)
                ==> restarted_by(old(self).engine_for(old(self)@[id].db_type), old(self)@[id], final(self)@[id]),
            old(self).is_dirty() ==> final(self).is_dirty(),
            match outcome {
                Ok(()) => r is Ok,
                Err(msg) => r matches Err(ManagerError::Engine(m)) && m@ == msg@,
            },
    {
        self.start_each(stopped);
        match outcome {
            Ok(()) => Ok(()),
            Err(msg) => Err(ManagerError::Engine(msg)),
        }
    }

    /// Replaces the registry with the persisted records, refreshing each
    /// instance's status from its engine (when one is wired for its kind) so
    /// that the registry matches reality on launch. A later record replaces an
    /// earlier one with the same id.
    pub fn load_all(&mut self, records: Vec<Instance>)
        ensures
            final(self).base() == old(self).base(),
            final(self).dirs() == old(self).dirs(),
            forall|d: DbType| final(self).supports(d) == old(self).supports(d),
            final(self).is_dirty() == old(self).is_dirty(),
            forall|id: Seq<char>| #[trigger] final(self)@.contains_key(id) == has_id(records@, id),
            forall|id: Seq<char>| #[trigger] final(self)@.contains_key(id) ==> exists|k: int|
                last_record(records@, id, k) && old(self).loaded_by(final(self)@[id], records@[k]),
    {
        proof {
            use_type_invariant(&*self);
        }
        let mut list: Vec<Instance> = Vec::new();
        let mut k: usize = 0;
        while k < records.len()
            invariant
                k <= records@.len(),
                ids_unique(list@),
                forall|id: Seq<char>| has_id(list@, id) == has_id(records@.take(k as int), id),
                forall|i: int| 0 <= i < list@.len() ==> exists|m: int|
                    last_record(records@.take(k as int), #[trigger] list@[i].id@, m) && self.loaded_by(list@[i], records@[m]),
            decreases records@.len() - k,
        {
            let mut inst = records[k].copy();
            match self.engine_index(inst.db_type) {
                Some(ei) => {
                    inst.status = self.engines[ei].check_status(&inst);
                },
                None => {
                    assert(!self.supports(records@[k as int].db_type));
                    assert(inst.status == records@[k as int].status);
                },
            }
            assert(self.loaded_by(inst, records@[k as int]));
            let ghost pre = records@.take(k as int);
            let ghost post = records@.take(k + 1);
            let ghost old_list = list@;
            proof {
                assert(post =~= pre.push(records@[k as int]));
                assert forall|id: Seq<char>| has_id(post, id) == (has_id(pre, id) || id == inst.id@) by {
                    if has_id(post, id) {
                        let w = choose|w: int| 0 <= w < post.len() && post[w].id@ == id;
                        if w < k {
                            assert(pre[w].id@ == id);
                        }
                    }
                    if has_id(pre, id) {
                        let w = choose|w: int| 0 <= w < pre.len() && pre[w].id@ == id;
                        assert(post[w].id@ == id);
                    }
                    if id == inst.id@ {
                        assert(post[k as int].id@ == id);
                    }
                }
            }
            match position_in(&list, inst.id.as_str()) {
                Some(j) => {
                    proof {
                        lemma_registry_update(list@, j as int, inst);
                    }
                    list.set(j, inst);
                    proof {
                        assert forall|i: int| 0 <= i < list@.len() implies exists|m: int|
                            last_record(post, #[trigger] list@[i].id@, m) && self.loaded_by(list@[i], records@[m]) by {
                            if i == j {
                                assert(last_record(post, list@[i].id@, k as int));
                                assert(self.loaded_by(list@[i], records@[k as int]));
                            } else {
                                let m = choose|m: int|
                                    last_record(pre, old_list[i].id@, m) && self.loaded_by(old_list[i], records@[m]);
                                assert(list@[i] == old_list[i]);
                                assert(old_list[i].id@ != old_list[j as int].id@);
                                assert(last_record(post, list@[i].id@, m));
                            }
                        }
                        assert forall|id: Seq<char>| has_id(list@, id) == has_id(post, id) by {
                            if has_id(list@, id) {
                                let w = choose|w: int| 0 <= w < list@.len() && list@[w].id@ == id;
                                if w != j {
                                    assert(old_list[w].id@ == id);
                                }
                            }
                            if has_id(old_list, id) {
                                let w = choose|w: int| 0 <= w < old_list.len() && old_list[w].id@ == id;
                                if w != j {
                                    assert(list@[w].id@ == id);
                                } else {
                                    assert(list@[w].id@ == id);
                                }
                            }
                        }
                    }
                },
                None => {
                    proof {
                        lemma_registry_push(list@, inst);
                    }
                    list.push(inst);
                    proof {
                        assert forall|i: int| 0 <= i < list@.len() implies exists|m: int|
                            last_record(post, #[trigger] list@[i].id@, m) && self.loaded_by(list@[i], records@[m]) by {
                            if i == old_list.len() {
                                assert(last_record(post, list@[i].id@, k as int));
                                assert(self.loaded_by(list@[i], records@[k as int]));
                            } else {
                                let m = choose|m: int|
                                    last_record(pre, old_list[i].id@, m) && self.loaded_by(old_list[i], records@[m]);
                                assert(list@[i] == old_list[i]);
                                assert(old_list[i].id@ != inst.id@) by {
                                    assert(has_id(old_list, old_list[i].id@));
                                }
                                assert(last_record(post, list@[i].id@, m));
                            }
                        }
                        assert forall|id: Seq<char>| has_id(list@, id) == has_id(post, id) by {
                            if has_id(list@, id) {
                                let w = choose|w: int| 0 <= w < list@.len() && list@[w].id@ == id;
                                if w < old_list.len() {
                                    assert(old_list[w].id@ == id);
                                }
                            }
                            if has_id(old_list, id) {
                                let w = choose|w: int| 0 <= w < old_list.len() && old_list[w].id@ == id;
                                assert(list@[w].id@ == id);
                            }
                            if id == inst.id@ {
                                assert(list@[old_list.len() as int].id@ == id);
                            }
                        }
                    }
                },
            }
            k = k + 1;
        }
        proof {
            assert(records@.take(records@.len() as int) =~= records@);
        }
        self.instances = list;
        proof {
            assert forall|id: Seq<char>| #[trigger] self@.contains_key(id) implies exists|k: int|
                last_record(records@, id, k) && old(self).loaded_by(self@[id], records@[k]) by {
                let i = choose|i: int| 0 <= i < self.instances@.len() && self.instances@[i].id@ == id;
                lemma_registry_at(self.instances@, i);
            }
        }
    }

    /// The installed and installable versions across every wired engine,
    /// ordered by engine id and then newest family first.
    pub fn versions(&self) -> (r: Vec<Version>)
        ensures
            in_rank_order(r@),
            exists|parts: Seq<Seq<Version>>|
                {
                    &&& parts.len() == self.wired().len()
                    &&& forall|i: int| 0 <= i < parts.len() ==> #[trigger] self.wired()[i].may_offer(parts[i])
                    &&& r@.to_multiset() == parts.flatten_alt().to_multiset()
                },
            forall|i: int| 0 <= i < r@.len() ==> self.supports(#[trigger] r@[i].db_type),
    {
        proof {
            use_type_invariant(self);
        }
        let mut found: Vec<Vec<Version>> = Vec::new();
        let mut i: usize = 0;
        while i < self.engines.len()
            invariant
                i <= self.engines@.len(),
                self.kinds@.len() == self.engines@.len(),
                forall|k: int| 0 <= k < self.kinds@.len() ==> self.kinds@[k] == (#[trigger] self.engines@[k]).kind(),
                found@.len() == i,
                forall|k: int| 0 <= k < i ==> #[trigger] self.engines@[k].may_offer(found@[k]@),
                forall|k: int, j: int| 0 <= k < i && 0 <= j < found@[k]@.len() ==> self.supports(
                    (#[trigger] found@[k]@[j]).db_type,
                ),
            decreases self.engines@.len() - i,
        {
            let vs = self.engines[i].versions();
            proof {
                assert forall|j: int| 0 <= j < vs@.len() implies self.supports((#[trigger] vs@[j]).db_type) by {
                    assert(self.kinds@[i as int] == vs@[j].db_type);
                }
            }
            found.push(vs);
            i = i + 1;
        }
        let ghost parts = found@.map_values(|l: Vec<Version>| l@);
        proof {
            assert forall|k: int| 0 <= k < parts.len() implies #[trigger] self.wired()[k].may_offer(parts[k]) by {
                assert(parts[k] == found@[k]@);
            }
            lemma_flatten_alt_members(parts);
            assert forall|x: Version| parts.flatten_alt().contains(x) implies self.supports(x.db_type) by {
                let (k, j) = choose|k: int, j: int| 0 <= k < parts.len() && 0 <= j < parts[k].len() && parts[k][j] == x;
                assert(parts[k] == found@[k]@);
                assert(found@[k]@[j] == x);
            }
        }
        let ghost lists = found@;
        let r = merge_versions(found);
        proof {
            assert(parts =~= lists.map_values(|l: Vec<Version>| l@));
            assert(r@.to_multiset() == parts.flatten_alt().to_multiset());
            r@.to_multiset_ensures();
            parts.flatten_alt().to_multiset_ensures();
            assert forall|i: int| 0 <= i < r@.len() implies self.supports(#[trigger] r@[i].db_type) by {
                assert(r@.contains(r@[i]));
                assert(r@.to_multiset().count(r@[i]) > 0);
                assert(parts.flatten_alt().to_multiset().count(r@[i]) > 0);
                assert(parts.flatten_alt().contains(r@[i]));
            }
        }
        r
    }

    /// The registry as it is persisted: every instance once, ordered by
    /// creation time and then id.
    pub fn snapshot(&self) -> (r: Vec<Instance>)
        ensures
            in_rank_order(r@),
            forall|x: Instance| #[trigger] r@.to_multiset().count(x) == if self@.contains_key(x.id@)
                && self@[x.id@] == x {
                1nat
            } else {
                0nat
            },
    {
        proof {
            use_type_invariant(self);
            lemma_registry_counts(self.instances@);
        }
        let mut all: Vec<Instance> = Vec::new();
        let mut i: usize = 0;
        while i < self.instances.len()
            invariant
                i <= self.instances@.len(),
                all@ == self.instances@.take(i as int),
            decreases self.instances@.len() - i,
        {
            all.push(self.instances[i].copy());
            proof {
                assert(self.instances@.take(i + 1) =~= self.instances@.take(i as int).push(self.instances@[i as int]));
            }
            i = i + 1;
        }
        proof {
            assert(self.instances@.take(i as int) =~= self.instances@);
        }
        sort_ranked(all)
    }

    /// Takes back a creation whose registry save failed: the instance `id`
    /// leaves the registry (its engine is not asked to do anything), so that
    /// the registry again matches what was last saved.
    pub fn discard(&mut self, id: &str)
        ensures
            final(self)@ == old(self)@.remove(id@),
            final(self).is_dirty() == old(self).is_dirty(),
            final(self).base() == old(self).base(),
            final(self).dirs() == old(self).dirs(),
            forall|d: DbType| final(self).supports(d) == old(self).supports(d),
            forall|d: DbType| final(self).engine_for(d) == old(self).engine_for(d),
    {
        proof {
            use_type_invariant(&*self);
        }
        match self.position(id) {
            None => {
                assert(self@.remove(id@) =~= self@);
            },
            Some(i) => {
                proof {
                    lemma_registry_remove(self.instances@, i as int);
                }
                let mut list: Vec<Instance> = Vec::new();
                std::mem::swap(&mut list, &mut self.instances);
                list.remove(i);
                self.instances = list;
            },
        }
    }

    /// The outcome of a creation once the registry save was attempted: a
    /// failed save takes the new instance back out (see [`Manager::discard`])
    /// and is reported as [`ManagerError::Store`]; otherwise as [`settle`].
    pub fn settle_create(&mut self, outcome: Result<Instance, ManagerError>, saved: Result<(), StoreError>) -> (r:
        Result<Instance, ManagerError>)
        ensures
            final(self).is_dirty() == old(self).is_dirty(),
            final(self).base() == old(self).base(),
            final(self).dirs() == old(self).dirs(),
            forall|d: DbType| final(self).supports(d) == old(self).supports(d),
            forall|d: DbType| final(self).engine_for(d) == old(self).engine_for(d),
            match (outcome, saved) {
                (Ok(inst), Err(e)) => {
                    &&& final(self)@ == old(self)@.remove(inst.id@)
                    &&& r matches Err(ManagerError::Store(m)) && m@ == e.message()
                },
                (Ok(inst), Ok(())) => final(self)@ == old(self)@ && r == Ok::<Instance, ManagerError>(inst),
                (Err(e), _) => final(self)@ == old(self)@ && r == Err::<Instance, ManagerError>(e),
            },
    {
        match outcome {
            Err(e) => Err(e),
            Ok(inst) => match saved {
                Ok(()) => Ok(inst),
                Err(e) => {
                    self.discard(inst.id.as_str());
                    Err(ManagerError::from(e))
                },
            },
        }
    }

    /// Whether the registry changed since it was last taken for saving; clears
    /// the mark. The caller saves [`Manager::snapshot`] when this is `true`.
    pub fn take_dirty(&mut self) -> (r: bool)
        ensures
            r == old(self).is_dirty(),
            !final(self).is_dirty(),
            final(self)@ == old(self)@,
            final(self).base() == old(self).base(),
            final(self).dirs() == old(self).dirs(),
            forall|db: DbType| final(self).supports(db) == old(self).supports(db),
    {
        proof {
            use_type_invariant(&*self);
        }
        let r = self.dirty;
        self.dirty = false;
        r
    }
}

/// Every member of a concatenation lies in one of the parts.
proof fn lemma_flatten_alt_members<A>(parts: Seq<Seq<A>>)
    ensures
        forall|x: A| #[trigger] parts.flatten_alt().contains(x) ==> exists|k: int, j: int|
            0 <= k < parts.len() && 0 <= j < parts[k].len() && parts[k][j] == x,
    decreases parts.len(),
{
    if parts.len() > 0 {
        let pre = parts.drop_last();
        lemma_flatten_alt_members(pre);
        assert forall|x: A| #[trigger] parts.flatten_alt().contains(x) implies exists|k: int, j: int|
            0 <= k < parts.len() && 0 <= j < parts[k].len() && parts[k][j] == x by {
            let w = choose|w: int| 0 <= w < parts.flatten_alt().len() && parts.flatten_alt()[w] == x;
            if w < pre.flatten_alt().len() {
                assert(pre.flatten_alt()[w] == x);
                assert(pre.flatten_alt().contains(x));
                let (k, j) = choose|k: int, j: int| 0 <= k < pre.len() && 0 <= j < pre[k].len() && pre[k][j] == x;
                assert(parts[k] == pre[k]);
            } else {
                let j = w - pre.flatten_alt().len();
                assert(parts.last()[j] == x);
            }
        }
    }
}

/// The version lists of several engines as one list: every record of every
/// list, each as often as it occurs, ordered by engine id and then newest
/// family first.
pub fn merge_versions(lists: Vec<Vec<Version>>) -> (r: Vec<Version>)
    ensures
        in_rank_order(r@),
        r@.to_multiset() == lists@.map_values(|l: Vec<Version>| l@).flatten_alt().to_multiset(),
{
    let ghost views = lists@.map_values(|l: Vec<Version>| l@);
    let mut rest = lists;
    let mut all: Vec<Version> = Vec::new();
    let mut i: usize = 0;
    let n = rest.len();
    while i < n
        invariant
            n == views.len(),
            i <= n,
            rest@.len() == n,
            forall|k: int| i <= k < n ==> rest@[k]@ == #[trigger] views[k],
            all@ == views.take(i as int).flatten_alt(),
        decreases n - i,
    {
        let mut next: Vec<Version> = Vec::new();
        let ghost rest_before = rest@;
        std::mem::swap(&mut next, &mut rest[i]);
        assert(next@ == views[i as int]);
        assert(forall|k: int| i < k < n ==> rest@[k] == rest_before[k]);
        all.append(&mut next);
        proof {
            assert(views.take(i + 1).drop_last() =~= views.take(i as int));
            assert(views.take(i + 1).last() == views[i as int]);
        }
        i = i + 1;
    }
    proof {
        assert(views.take(n as int) =~= views);
    }
    sort_ranked(all)
}

/// The outcome a caller reports once the registry has been saved (or the save
/// was attempted): a failed operation keeps its own error, whatever the save
/// gave; a successful one fails with [`ManagerError::Store`] when the save
/// failed.
pub fn settle<T>(outcome: Result<T, ManagerError>, saved: Result<(), StoreError>) -> (r: Result<
    T,
    ManagerError,
>)
    ensures
        outcome is Err ==> r == outcome,
        outcome is Ok && saved is Ok ==> r == outcome,
        outcome is Ok ==> match saved {
            Err(e) => r matches Err(ManagerError::Store(m)) && m@ == e.message(),
            Ok(()) => true,
        },
{
    match outcome {
        Err(e) => Err(e),
        Ok(v) => match saved {
            Ok(()) => Ok(v),
            Err(e) => Err(ManagerError::from(e)),
        },
    }
}

} // verus!
