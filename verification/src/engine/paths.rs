//! Filesystem locations, snap-aware.
//!
//! Inside a snap the app is confined, so engine binaries are only ever the
//! bundled ones under `$SNAP` and user data lives in `$SNAP_USER_COMMON`.
//! Outside a snap, data lives under the XDG data dir and the user may drop
//! custom engine builds into the engines directory, which is searched ahead of
//! the system paths. The environment and the filesystem are the caller's: this
//! module takes the variables' values and a file probe as arguments.

use vstd::prelude::*;
use vstd::string::*;
use crate::text::{chars_of, has_prefix, push_char, starts_with};

verus! {

/// Joining two paths as `Path::join` does on Unix: an absolute `b` replaces
/// `a`; otherwise a separator is inserted unless `a` is empty or already ends
/// with one.
pub open spec fn spec_join(a: Seq<char>, b: Seq<char>) -> Seq<char> {
    if starts_with(b, seq!['/']) {
        b
    } else if a.len() == 0 {
        b
    } else if a.last() == '/' {
        a + b
    } else {
        a + seq!['/'] + b
    }
}

/// `a` joined with `b` (see [`spec_join`]).
pub fn join(a: &str, b: &str) -> (r: String)
    ensures
        r@ == spec_join(a@, b@),
{
    proof {
        reveal_strlit("/");
        assert("/"@ =~= seq!['/']);
    }
    let bv = chars_of(b);
    if has_prefix(&bv, "/") {
        return b.to_owned();
    }
    let av = chars_of(a);
    let mut r = a.to_owned();
    if av.len() > 0 && av[av.len() - 1] != '/' {
        push_char(&mut r, '/');
    }
    r.append(b);
    proof {
        if a@.len() > 0 && a@.last() != '/' {
            assert(r@ =~= a@ + seq!['/'] + b@);
        } else if a@.len() == 0 {
            assert(r@ =~= b@);
        } else {
            assert(r@ =~= a@ + b@);
        }
    }
    r
}

/// A non-empty value of an environment variable, as a path.
pub open spec fn spec_non_empty(v: Option<Seq<char>>) -> Option<Seq<char>> {
    match v {
        Some(s) => if s.len() > 0 {
            Some(s)
        } else {
            None
        },
        None => None,
    }
}

/// The `$SNAP` root when running inside a snap: the value of `SNAP`, unless
/// it is unset or empty.
pub fn snap_dir(snap_var: Option<&str>) -> (r: Option<String>)
    ensures
        match r {
            Some(s) => spec_non_empty(match snap_var {
                Some(v) => Some(v@),
                None => None,
            }) == Some(s@),
            None => spec_non_empty(match snap_var {
                Some(v) => Some(v@),
                None => None,
            }) is None,
        },
{
    match snap_var {
        Some(v) => {
            if v.unicode_len() > 0 {
                Some(v.to_owned())
            } else {
                None
            }
        },
        None => None,
    }
}

/// The base data directory: `$SNAP_USER_COMMON` inside a snap, else
/// `$XDG_DATA_HOME/klyradb`, else `~/.local/share/klyradb` (an unset `HOME`
/// counting as the empty path).
pub open spec fn spec_base_dir(
    snap_user_common: Option<Seq<char>>,
    xdg_data_home: Option<Seq<char>>,
    home: Option<Seq<char>>,
) -> Seq<char> {
    if spec_non_empty(snap_user_common) is Some {
        snap_user_common->0
    } else if spec_non_empty(xdg_data_home) is Some {
        spec_join(xdg_data_home->0, "klyradb"@)
    } else {
        let h = match home {
            Some(h) => h,
            None => Seq::empty(),
        };
        spec_join(spec_join(spec_join(h, ".local"@), "share"@), "klyradb"@)
    }
}

/// The view of an optional string slice.
pub open spec fn opt_view(v: Option<&str>) -> Option<Seq<char>> {
    match v {
        Some(s) => Some(s@),
        None => None,
    }
}

/// The base data directory computed from the values of `SNAP_USER_COMMON`,
/// `XDG_DATA_HOME` and `HOME`.
pub fn base_dir(
    snap_user_common: Option<&str>,
    xdg_data_home: Option<&str>,
    home: Option<&str>,
) -> (r: String)
    ensures
        r@ == spec_base_dir(opt_view(snap_user_common), opt_view(xdg_data_home), opt_view(home)),
{
    if let Some(common) = snap_user_common {
        if common.unicode_len() > 0 {
            return common.to_owned();
        }
    }
    if let Some(xdg) = xdg_data_home {
        if xdg.unicode_len() > 0 {
            return join(xdg, "klyradb");
        }
    }
    let h = match home {
        Some(h) => h.to_owned(),
        None => String::new(),
    };
    let a = join(h.as_str(), ".local");
    let b = join(a.as_str(), "share");
    join(b.as_str(), "klyradb")
}

/// The directory where users may drop custom engine builds: `engines` under
/// the base directory.
pub fn engines_dir(base: &str) -> (r: String)
    ensures
        r@ == spec_join(base@, "engines"@),
{
    join(base, "engines")
}

/// The places searched for an engine executable, in order. Inside a snap only
/// the bundled binaries count; outside, the user's engines directory wins,
/// then the system locations, then each directory of `$PATH`.
pub open spec fn spec_binary_candidates(
    snap: Option<Seq<char>>,
    base: Seq<char>,
    engine_subdir: Seq<char>,
    name: Seq<char>,
    path_dirs: Seq<Seq<char>>,
) -> Seq<Seq<char>> {
    match snap {
        Some(s) => seq![
            spec_join(spec_join(s, "usr/bin"@), name),
            spec_join(spec_join(s, "usr/local/bin"@), name),
        ],
        None => seq![
            spec_join(spec_join(spec_join(spec_join(base, "engines"@), engine_subdir), "bin"@), name),
            spec_join("/usr/bin"@, name),
            spec_join("/usr/local/bin"@, name),
        ] + path_dirs.map_values(|d: Seq<char>| spec_join(d, name)),
    }
}

/// The views of a sequence of strings.
pub open spec fn views_of(s: Seq<String>) -> Seq<Seq<char>> {
    s.map_values(|x: String| x@)
}

/// Appends `dir`/`name` for each directory of `dirs` to `out`.
pub fn push_joined(out: &mut Vec<String>, dirs: &Vec<String>, name: &str)
    ensures
        views_of(final(out)@) == views_of(old(out)@) + views_of(dirs@).map_values(
            |d: Seq<char>| spec_join(d, name@),
        ),
{
    let ghost start = views_of(out@);
    let mut i: usize = 0;
    while i < dirs.len()
        invariant
            i <= dirs.len(),
            views_of(out@) == start + views_of(dirs@).take(i as int).map_values(
                |d: Seq<char>| spec_join(d, name@),
            ),
        decreases dirs.len() - i,
    {
        let p = join(dirs[i].as_str(), name);
        let ghost before_push = views_of(out@);
        out.push(p);
        proof {
            assert(views_of(out@) =~= before_push.push(spec_join(dirs@[i as int]@, name@)));
            assert(views_of(dirs@).take(i + 1) =~= views_of(dirs@).take(i as int).push(
                dirs@[i as int]@,
            ));
            assert(views_of(out@) =~= start + views_of(dirs@).take(i + 1).map_values(
                |d: Seq<char>| spec_join(d, name@),
            ));
        }
        i = i + 1;
    }
    assert(views_of(dirs@).take(dirs.len() as int) =~= views_of(dirs@));
}

/// The places searched for an engine executable (see [`spec_binary_candidates`]).
pub fn binary_candidates(
    snap: Option<&str>,
    base: &str,
    engine_subdir: &str,
    name: &str,
    path_dirs: &Vec<String>,
) -> (r: Vec<String>)
    ensures
        views_of(r@) == spec_binary_candidates(
            opt_view(snap),
            base@,
            engine_subdir@,
            name@,
            views_of(path_dirs@),
        ),
{
    let mut r: Vec<String> = Vec::new();
    match snap {
        Some(s) => {
            let a = join(s, "usr/bin");
            r.push(join(a.as_str(), name));
            let b = join(s, "usr/local/bin");
            r.push(join(b.as_str(), name));
            assert(views_of(r@) =~= spec_binary_candidates(
                opt_view(snap),
                base@,
                engine_subdir@,
                name@,
                views_of(path_dirs@),
            ));
        },
        None => {
            let e = engines_dir(base);
            let e2 = join(e.as_str(), engine_subdir);
            let e3 = join(e2.as_str(), "bin");
            r.push(join(e3.as_str(), name));
            r.push(join("/usr/bin", name));
            r.push(join("/usr/local/bin", name));
            let ghost fixed = views_of(r@);
            push_joined(&mut r, path_dirs, name);
            assert(views_of(r@) =~= spec_binary_candidates(
                opt_view(snap),
                base@,
                engine_subdir@,
                name@,
                views_of(path_dirs@),
            ));
        },
    }
    r
}

/// The probe `is_file` answered `answer` when asked about the path `c`.
pub open spec fn probed<F: Fn(&str) -> bool>(is_file: F, c: Seq<char>, answer: bool) -> bool {
    exists|s: &str| s@ == c && call_ensures(is_file, (s,), answer)
}

/// `r` is the outcome of asking `is_file` about each candidate in order and
/// taking the first one it accepts.
pub open spec fn first_accepted<F: Fn(&str) -> bool>(
    candidates: Seq<Seq<char>>,
    is_file: F,
    r: Option<Seq<char>>,
) -> bool {
    match r {
        Some(p) => exists|i: int|
            0 <= i < candidates.len() && candidates[i] == p && probed(is_file, p, true) && (
            forall|j: int| 0 <= j < i ==> probed(is_file, #[trigger] candidates[j], false)),
        None => forall|j: int|
            0 <= j < candidates.len() ==> probed(is_file, #[trigger] candidates[j], false),
    }
}

/// `is_file` answers as membership in `files` does, whenever it answers.
pub open spec fn answers_by<F: Fn(&str) -> bool>(is_file: F, files: Set<Seq<char>>) -> bool {
    forall|p: Seq<char>, b: bool| #[trigger] probed(is_file, p, b) ==> b == files.contains(p)
}

/// The first of `places` that is in `files`.
pub open spec fn first_file(places: Seq<Seq<char>>, files: Set<Seq<char>>) -> Option<Seq<char>>
    decreases places.len(),
{
    if places.len() == 0 {
        None
    } else if files.contains(places[0]) {
        Some(places[0])
    } else {
        first_file(places.drop_first(), files)
    }
}

/// [`first_file`] is the place at the first index holding a file, or nothing.
proof fn lemma_first_file(places: Seq<Seq<char>>, files: Set<Seq<char>>, i: int)
    requires
        0 <= i <= places.len(),
        forall|j: int| 0 <= j < i ==> !files.contains(#[trigger] places[j]),
        i == places.len() || files.contains(places[i]),
    ensures
        first_file(places, files) == if i < places.len() {
            Some(places[i])
        } else {
            None
        },
    decreases i,
{
    if i > 0 {
        let rest = places.drop_first();
        assert forall|j: int| 0 <= j < i - 1 implies !files.contains(#[trigger] rest[j]) by {
            assert(rest[j] == places[j + 1]);
        }
        if i < places.len() {
            assert(rest[i - 1] == places[i]);
        }
        lemma_first_file(rest, files, i - 1);
    }
}

/// A probe that answers as membership in `files` leads [`first_present`] to
/// the first candidate in `files`.
pub proof fn lemma_first_accepted_is_first_file<F: Fn(&str) -> bool>(
    c: Seq<Seq<char>>,
    is_file: F,
    files: Set<Seq<char>>,
    r: Option<Seq<char>>,
)
    requires
        answers_by(is_file, files),
        first_accepted(c, is_file, r),
    ensures
        r == first_file(c, files),
{
    match r {
        Some(p) => {
            let i = choose|i: int|
                0 <= i < c.len() && c[i] == p && probed(is_file, p, true) && (forall|j: int|
                    0 <= j < i ==> probed(is_file, #[trigger] c[j], false));
            assert forall|j: int| 0 <= j < i implies !files.contains(#[trigger] c[j]) by {
                assert(probed(is_file, c[j], false));
            }
            lemma_first_file(c, files, i);
        },
        None => {
            assert forall|j: int| 0 <= j < c.len() implies !files.contains(#[trigger] c[j]) by {
                assert(probed(is_file, c[j], false));
            }
            lemma_first_file(c, files, c.len() as int);
        },
    }
}

/// Inside a snap only the bundle is searched: an executable is found as
/// `<snap>/usr/bin/<name>` when there, else as `<snap>/usr/local/bin/<name>`,
/// else not at all, whatever the engines directory or `$PATH` hold.
pub proof fn law_snap_binary_search<F: Fn(&str) -> bool>(
    snap: Seq<char>,
    base: Seq<char>,
    engine_subdir: Seq<char>,
    name: Seq<char>,
    path_dirs: Seq<Seq<char>>,
    is_file: F,
    files: Set<Seq<char>>,
    r: Option<Seq<char>>,
)
    requires
        answers_by(is_file, files),
        first_accepted(spec_binary_candidates(Some(snap), base, engine_subdir, name, path_dirs), is_file, r),
    ensures
        r == first_file(
            seq![spec_join(spec_join(snap, "usr/bin"@), name), spec_join(spec_join(snap, "usr/local/bin"@), name)],
            files,
        ),
{
    lemma_first_accepted_is_first_file(
        spec_binary_candidates(Some(snap), base, engine_subdir, name, path_dirs),
        is_file,
        files,
        r,
    );
}

/// Where an `sbin`/`bin` server executable is found outside a snap: the first
/// of `<base>/engines/<subdir>/sbin`, `<base>/engines/<subdir>/bin`,
/// `/usr/sbin`, `/usr/bin`, `/usr/local/sbin`, `/usr/local/bin` and then each
/// `$PATH` directory in order that holds `name`; inside a snap, the first of
/// the bundle's `<root>/sbin` and `<root>/bin` that holds it.
pub proof fn law_sbin_search_order<F: Fn(&str) -> bool>(
    snap: Option<Seq<char>>,
    snap_root: Seq<char>,
    base: Seq<char>,
    engine_subdir: Seq<char>,
    name: Seq<char>,
    path_dirs: Seq<Seq<char>>,
    is_file: F,
    files: Set<Seq<char>>,
    r: Option<Seq<char>>,
)
    requires
        answers_by(is_file, files),
        first_accepted(spec_sbin_candidates(snap, snap_root, base, engine_subdir, name, path_dirs), is_file, r),
    ensures
        r == match snap {
            Some(s) => first_file(
                seq![
                    spec_join(spec_join(s, snap_root + "/sbin"@), name),
                    spec_join(spec_join(s, snap_root + "/bin"@), name),
                ],
                files,
            ),
            None => first_file(
                seq![
                    spec_join(spec_join(spec_join(base, "engines"@), engine_subdir + "/sbin"@), name),
                    spec_join(spec_join(spec_join(base, "engines"@), engine_subdir + "/bin"@), name),
                    spec_join("/usr/sbin"@, name),
                    spec_join("/usr/bin"@, name),
                    spec_join("/usr/local/sbin"@, name),
                    spec_join("/usr/local/bin"@, name),
                ] + Seq::new(path_dirs.len(), |k: int| spec_join(path_dirs[k], name)),
                files,
            ),
        },
{
    let c = spec_sbin_candidates(snap, snap_root, base, engine_subdir, name, path_dirs);
    lemma_first_accepted_is_first_file(c, is_file, files, r);
    if snap is None {
        let want = seq![
            spec_join(spec_join(spec_join(base, "engines"@), engine_subdir + "/sbin"@), name),
            spec_join(spec_join(spec_join(base, "engines"@), engine_subdir + "/bin"@), name),
            spec_join("/usr/sbin"@, name),
            spec_join("/usr/bin"@, name),
            spec_join("/usr/local/sbin"@, name),
            spec_join("/usr/local/bin"@, name),
        ] + Seq::new(path_dirs.len(), |k: int| spec_join(path_dirs[k], name));
        assert(c =~= want);
    }
}

/// Where an executable is found outside a snap, for a probe that reports the
/// files of `files`: `<base>/engines/<subdir>/bin/<name>` when it is there;
/// else `/usr/bin/<name>`; else `/usr/local/bin/<name>`; else `<d>/<name>`
/// for the first directory `d` of `path_dirs` (the `$PATH` directories, in
/// order) that holds it. Nothing is found only when none of these holds it,
/// and whatever is found is a file.
pub proof fn law_binary_search_order<F: Fn(&str) -> bool>(
    base: Seq<char>,
    engine_subdir: Seq<char>,
    name: Seq<char>,
    path_dirs: Seq<Seq<char>>,
    is_file: F,
    files: Set<Seq<char>>,
    r: Option<Seq<char>>,
)
    requires
        answers_by(is_file, files),
        first_accepted(spec_binary_candidates(None, base, engine_subdir, name, path_dirs), is_file, r),
    ensures
        ({
            let own = spec_join(spec_join(spec_join(spec_join(base, "engines"@), engine_subdir), "bin"@), name);
            let sys = spec_join("/usr/bin"@, name);
            let local = spec_join("/usr/local/bin"@, name);
            &&& files.contains(own) ==> r == Some(own)
            &&& !files.contains(own) && files.contains(sys) ==> r == Some(sys)
            &&& !files.contains(own) && !files.contains(sys) && files.contains(local) ==> r == Some(local)
            &&& forall|k: int|
                0 <= k < path_dirs.len() && !files.contains(own) && !files.contains(sys) && !files.contains(local)
                    && files.contains(#[trigger] spec_join(path_dirs[k], name)) && (forall|j: int|
                    0 <= j < k ==> !files.contains(spec_join(path_dirs[j], name))) ==> r == Some(
                    spec_join(path_dirs[k], name),
                )
            &&& r is None ==> !files.contains(own) && !files.contains(sys) && !files.contains(local) && forall|
                k: int,
            | 0 <= k < path_dirs.len() ==> !files.contains(#[trigger] spec_join(path_dirs[k], name))
            &&& r matches Some(p) ==> files.contains(p)
        }),
{
    let c = spec_binary_candidates(None, base, engine_subdir, name, path_dirs);
    let own = spec_join(spec_join(spec_join(spec_join(base, "engines"@), engine_subdir), "bin"@), name);
    let sys = spec_join("/usr/bin"@, name);
    let local = spec_join("/usr/local/bin"@, name);
    assert(c.len() == 3 + path_dirs.len());
    assert(c[0] == own && c[1] == sys && c[2] == local);
    assert forall|k: int| 0 <= k < path_dirs.len() implies c[3 + k] == spec_join(path_dirs[k], name) by {}
    assert forall|j: int| 0 <= j < c.len() && probed(is_file, c[j], false) implies !files.contains(c[j]) by {}
    match r {
        Some(p) => {
            let i = choose|i: int|
                0 <= i < c.len() && c[i] == p && probed(is_file, p, true) && (forall|j: int|
                    0 <= j < i ==> probed(is_file, #[trigger] c[j], false));
            assert(files.contains(p));
            assert forall|j: int| 0 <= j < i implies !files.contains(#[trigger] c[j]) by {
                assert(probed(is_file, c[j], false));
            }
            assert forall|k: int|
                0 <= k < path_dirs.len() && !files.contains(own) && !files.contains(sys) && !files.contains(local)
                    && files.contains(#[trigger] spec_join(path_dirs[k], name)) && (forall|j: int|
                    0 <= j < k ==> !files.contains(spec_join(path_dirs[j], name))) implies r == Some(
                    spec_join(path_dirs[k], name),
                ) by {
                if i < 3 + k {
                    assert(i >= 3);
                    assert(c[i] == spec_join(path_dirs[i - 3], name));
                } else if i > 3 + k {
                    assert(!files.contains(c[3 + k]));
                }
            }
        },
        None => {
            assert forall|j: int| 0 <= j < c.len() implies !files.contains(#[trigger] c[j]) by {
                assert(probed(is_file, c[j], false));
            }
            assert forall|k: int| 0 <= k < path_dirs.len() implies !files.contains(
                #[trigger] spec_join(path_dirs[k], name),
            ) by {
                assert(!files.contains(c[3 + k]));
            }
        },
    }
}

/// The first of `candidates` that `is_file` accepts, asking in order.
pub fn first_present<F: Fn(&str) -> bool>(candidates: &Vec<String>, is_file: &F) -> (r: Option<
    String,
>)
    requires
        forall|s: &str| is_file.requires((s,)),
    ensures
        first_accepted(
            views_of(candidates@),
            *is_file,
            match r {
                Some(p) => Some(p@),
                None => None,
            },
        ),
{
    let mut i: usize = 0;
    while i < candidates.len()
        invariant
            i <= candidates.len(),
            forall|s: &str| is_file.requires((s,)),
            forall|j: int|
                0 <= j < i ==> probed(*is_file, #[trigger] views_of(candidates@)[j], false),
        decreases candidates.len() - i,
    {
        let c = candidates[i].as_str();
        let found = is_file(c);
        if found {
            let p = candidates[i].clone();
            assert(views_of(candidates@)[i as int] == p@);
            assert(probed(*is_file, p@, true));
            return Some(p);
        }
        assert(probed(*is_file, views_of(candidates@)[i as int], false));
        i = i + 1;
    }
    None
}

/// Resolves an engine executable by name, honouring snap confinement (see
/// [`spec_binary_candidates`] for the search order). Returns `None` when no
/// candidate exists.
pub fn find_binary<F: Fn(&str) -> bool>(
    snap: Option<&str>,
    base: &str,
    engine_subdir: &str,
    name: &str,
    path_dirs: &Vec<String>,
    is_file: &F,
) -> (r: Option<String>)
    requires
        forall|s: &str| is_file.requires((s,)),
    ensures
        first_accepted(
            spec_binary_candidates(opt_view(snap), base@, engine_subdir@, name@, views_of(path_dirs@)),
            *is_file,
            match r {
                Some(p) => Some(p@),
                None => None,
            },
        ),
{
    let cands = binary_candidates(snap, base, engine_subdir, name, path_dirs);
    first_present(&cands, is_file)
}


/// The parent of a path as text, as std's `Path::parent` reports it (`None`
/// for a root, a prefix or the empty path).
pub uninterp spec fn path_parent(p: Seq<char>) -> Option<Seq<char>>;

/// The parent of `p`, through `std::path::Path::parent`; the result is named
/// by [`path_parent`] and nothing more is claimed of it.
#[verifier::external_body]
pub(crate) fn parent_path(p: &str) -> (r: Option<String>)
    ensures
        match r {
            Some(s) => path_parent(p@) == Some(s@),
            None => path_parent(p@) is None,
        },
{
    match std::path::Path::new(p).parent() {
        Some(q) => Some(q.to_string_lossy().into_owned()),
        None => None,
    }
}

/// The parent directory of `path`, or the empty string when it has none.
pub open spec fn spec_parent_of(path: Seq<char>) -> Seq<char> {
    match path_parent(path) {
        Some(q) => q,
        None => Seq::empty(),
    }
}

/// The parent directory of `path`, or the empty string when it has none.
pub fn parent_of(path: &str) -> (r: String)
    ensures
        r@ == spec_parent_of(path@),
{
    match parent_path(path) {
        Some(q) => q,
        None => String::new(),
    }
}


/// The places an executable of a server shipped with separate `sbin` and
/// `bin` directories is looked for, in order: under `snap_root` inside the
/// snap when confined; otherwise the user's engines directory (`sbin`, then
/// `bin`), the system `sbin`/`bin` directories, then each directory of `$PATH`.
pub open spec fn spec_sbin_candidates(
    snap: Option<Seq<char>>,
    snap_root: Seq<char>,
    base: Seq<char>,
    engine_subdir: Seq<char>,
    name: Seq<char>,
    path_dirs: Seq<Seq<char>>,
) -> Seq<Seq<char>> {
    match snap {
        Some(s) => seq![
            spec_join(spec_join(s, snap_root + "/sbin"@), name),
            spec_join(spec_join(s, snap_root + "/bin"@), name),
        ],
        None => seq![
            spec_join(spec_join(spec_join(base, "engines"@), engine_subdir + "/sbin"@), name),
            spec_join(spec_join(spec_join(base, "engines"@), engine_subdir + "/bin"@), name),
            spec_join("/usr/sbin"@, name),
            spec_join("/usr/bin"@, name),
            spec_join("/usr/local/sbin"@, name),
            spec_join("/usr/local/bin"@, name),
        ] + path_dirs.map_values(|d: Seq<char>| spec_join(d, name)),
    }
}

/// `a` followed by `b`.
pub fn concat(a: &str, b: &str) -> (r: String)
    ensures
        r@ == a@ + b@,
{
    let mut s = a.to_owned();
    s.append(b);
    s
}

/// The places an `sbin`/`bin` server executable is looked for (see
/// [`spec_sbin_candidates`]).
pub fn sbin_candidates(
    snap: Option<&str>,
    snap_root: &str,
    base: &str,
    engine_subdir: &str,
    name: &str,
    path_dirs: &Vec<String>,
) -> (r: Vec<String>)
    ensures
        views_of(r@) == spec_sbin_candidates(
            opt_view(snap),
            snap_root@,
            base@,
            engine_subdir@,
            name@,
            views_of(path_dirs@),
        ),
{
    let mut r: Vec<String> = Vec::new();
    match snap {
        Some(s) => {
            let a = join(s, concat(snap_root, "/sbin").as_str());
            r.push(join(a.as_str(), name));
            let b = join(s, concat(snap_root, "/bin").as_str());
            r.push(join(b.as_str(), name));
        },
        None => {
            let eng = engines_dir(base);
            let a = join(eng.as_str(), concat(engine_subdir, "/sbin").as_str());
            r.push(join(a.as_str(), name));
            let b = join(eng.as_str(), concat(engine_subdir, "/bin").as_str());
            r.push(join(b.as_str(), name));
            r.push(join("/usr/sbin", name));
            r.push(join("/usr/bin", name));
            r.push(join("/usr/local/sbin", name));
            r.push(join("/usr/local/bin", name));
            push_joined(&mut r, path_dirs, name);
        },
    }
    assert(views_of(r@) =~= spec_sbin_candidates(
        opt_view(snap),
        snap_root@,
        base@,
        engine_subdir@,
        name@,
        views_of(path_dirs@),
    ));
    r
}

} // verus!
