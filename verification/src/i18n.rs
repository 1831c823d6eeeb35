//! Localization catalogue.
//!
//! Every locale file is a flat JSON object from key to string, named
//! `<code>.json`. The English catalogue is the source of truth: any locale
//! that is missing a key falls back to the English string, so the UI is never
//! blank on a gap. The files themselves are supplied by the caller (the
//! application embeds them at build time).

use vstd::prelude::*;
use crate::dict::{entries_map, keys_ascending, lemma_entry_at, Dict};
use crate::text::{ascii_lower, compare, Order, before, chars_of, find_from, lemma_find, lemma_trim_fixed, lemma_trim_shape, lower, lower_all, slice_chars, string_of, trim, trim_chars};

verus! {

/// The locale used as the source of truth and the fallback for missing keys.
pub const FALLBACK: &'static str = "en";

/// A locale file as shipped: its path and, when it is valid UTF-8, its text.
pub struct LocaleFile {
    pub path: String,
    pub contents: Option<String>,
}

/// What `serde_json` makes of a locale file's text read as a flat
/// `BTreeMap<String, String>`: its entries in ascending key order, or the
/// parser's error message.
pub uninterp spec fn flat_json(body: Seq<char>) -> Result<Seq<(Seq<char>, Seq<char>)>, Seq<char>>;

/// The stem of a path's file name, as `std::path::Path::file_stem` gives it.
pub uninterp spec fn path_stem(path: Seq<char>) -> Option<Seq<char>>;

/// The extension of a path's file name, as `std::path::Path::extension`
/// gives it.
pub uninterp spec fn path_extension(path: Seq<char>) -> Option<Seq<char>>;

/// The views of a list of string pairs.
pub open spec fn pair_views(s: Seq<(String, String)>) -> Seq<(Seq<char>, Seq<char>)> {
    s.map_values(|p: (String, String)| (p.0@, p.1@))
}

/// Parses a locale file's text (`serde_json::from_str` into a
/// `BTreeMap<String, String>`), handing back its entries in the map's order or
/// the parser's error message; the contract equates the outcome with
/// [`flat_json`] of the text.
#[verifier::external_body]
fn parse_flat_json(body: &str) -> (r: Result<Vec<(String, String)>, String>)
    ensures
        match r {
            Ok(pairs) => flat_json(body@) == Ok::<Seq<(Seq<char>, Seq<char>)>, Seq<char>>(pair_views(pairs@)),
            Err(e) => flat_json(body@) == Err::<Seq<(Seq<char>, Seq<char>)>, Seq<char>>(e@),
        },
{
    match serde_json::from_str::<std::collections::BTreeMap<String, String>>(body) {
        Ok(map) => Ok(map.into_iter().collect()),
        Err(e) => Err(e.to_string()),
    }
}

/// The stem of `path`'s file name (`std::path::Path::file_stem`), when it has
/// one and it is valid UTF-8; the contract equates it with [`path_stem`].
#[verifier::external_body]
fn file_stem(path: &str) -> (r: Option<String>)
    ensures
        match r {
            Some(s) => path_stem(path@) == Some(s@),
            None => path_stem(path@) is None,
        },
{
    std::path::Path::new(path).file_stem().and_then(|s| s.to_str()).map(|s| s.to_owned())
}

/// The extension of `path`'s file name (`std::path::Path::extension`), when it
/// has one and it is valid UTF-8; the contract equates it with
/// [`path_extension`].
#[verifier::external_body]
fn file_extension(path: &str) -> (r: Option<String>)
    ensures
        match r {
            Some(s) => path_extension(path@) == Some(s@),
            None => path_extension(path@) is None,
        },
{
    std::path::Path::new(path).extension().and_then(|s| s.to_str()).map(|s| s.to_owned())
}

/// A string table as a map from key to text.
pub open spec fn table_view(d: Dict<String>) -> Map<Seq<char>, Seq<char>> {
    d@.map_values(|v: String| v@)
}

/// The table a list of pairs builds, a later pair replacing an earlier one
/// with the same key.
pub open spec fn table_of(pairs: Seq<(Seq<char>, Seq<char>)>) -> Map<Seq<char>, Seq<char>>
    decreases pairs.len(),
{
    if pairs.len() == 0 {
        Map::empty()
    } else {
        table_of(pairs.drop_last()).insert(pairs.last().0, pairs.last().1)
    }
}

/// A locale code normalized: trimmed, ASCII-lowercased, `_` turned into `-`.
pub open spec fn spec_normalize(code: Seq<char>) -> Seq<char> {
    lower_all(trim(code)).map_values(|c: char| if c == '_' { '-' } else { c })
}

/// The bare language subtag of a code: what comes before its first `-`.
pub open spec fn spec_lang_subtag(code: Seq<char>) -> Seq<char> {
    before(code, '-')
}

/// Whether a code's language renders right to left.
pub open spec fn is_rtl(code: Seq<char>) -> bool {
    let t = spec_lang_subtag(code);
    t == "ar"@ || t == "he"@ || t == "fa"@ || t == "ur"@
}

/// The text direction of a code: `"rtl"` or `"ltr"`.
pub open spec fn spec_direction(code: Seq<char>) -> Seq<char> {
    if is_rtl(code) {
        "rtl"@
    } else {
        "ltr"@
    }
}

/// The catalogue after one more file: a JSON file with a stem adds (or
/// replaces) the locale named by its normalized stem; other files are passed
/// over; a file that is not UTF-8 or not flat JSON is an error.
pub open spec fn load_step(
    m: Map<Seq<char>, Map<Seq<char>, Seq<char>>>,
    path: Seq<char>,
    contents: Option<Seq<char>>,
) -> Result<Map<Seq<char>, Map<Seq<char>, Seq<char>>>, Seq<char>> {
    match path_stem(path) {
        None => Ok(m),
        Some(stem) => if path_extension(path) != Some("json"@) {
            Ok(m)
        } else {
            match contents {
                None => Err("locale file is not UTF-8"@),
                Some(body) => match flat_json(body) {
                    Err(e) => Err("locale "@ + stem + " is not flat JSON: "@ + e),
                    Ok(pairs) => Ok(m.insert(spec_normalize(stem), table_of(pairs))),
                },
            }
        },
    }
}

/// The view of an optional string.
pub open spec fn opt_view(v: Option<String>) -> Option<Seq<char>> {
    match v {
        Some(s) => Some(s@),
        None => None,
    }
}

/// The catalogue that the files build, in order, or the first file's error.
pub open spec fn spec_load(files: Seq<LocaleFile>) -> Result<Map<Seq<char>, Map<Seq<char>, Seq<char>>>, Seq<char>>
    decreases files.len(),
{
    if files.len() == 0 {
        Ok(Map::empty())
    } else {
        match spec_load(files.drop_last()) {
            Err(e) => Err(e),
            Ok(m) => load_step(m, files.last().path@, opt_view(files.last().contents)),
        }
    }
}

/// The locale a code resolves to among the shipped `codes`: the normalized
/// code when shipped, else its language subtag when shipped, else English.
pub open spec fn spec_resolve(codes: Set<Seq<char>>, code: Seq<char>) -> Seq<char> {
    let norm = spec_normalize(code);
    if codes.contains(norm) {
        norm
    } else if codes.contains(spec_lang_subtag(norm)) {
        spec_lang_subtag(norm)
    } else {
        FALLBACK@
    }
}

/// The strings of the resolved locale `code`: the English table, overlaid by
/// the locale's own table when it is not English.
pub open spec fn spec_lang_table(
    locales: Map<Seq<char>, Map<Seq<char>, Seq<char>>>,
    code: Seq<char>,
) -> Map<Seq<char>, Seq<char>> {
    let base = if locales.contains_key(FALLBACK@) {
        locales[FALLBACK@]
    } else {
        Map::empty()
    };
    if code != FALLBACK@ && locales.contains_key(code) {
        base.union_prefer_right(locales[code])
    } else {
        base
    }
}

/// The code the environment asks for: the first non-empty value, taken up to
/// its first `.` and normalized, whose code or language subtag is shipped.
pub open spec fn spec_detect(codes: Set<Seq<char>>, env: Seq<Option<Seq<char>>>) -> Seq<char>
    decreases env.len(),
{
    if env.len() == 0 {
        FALLBACK@
    } else {
        match env[0] {
            Some(val) if val.len() > 0 && {
                let code = spec_normalize(before(val, '.'));
                codes.contains(spec_normalize(code)) || codes.contains(
                    spec_normalize(spec_lang_subtag(code)),
                )
            } => spec_normalize(before(val, '.')),
            _ => spec_detect(codes, env.drop_first()),
        }
    }
}

/// Once the files up to some point fail to load, every longer run of them
/// fails with the same error.
proof fn lemma_load_error_persists(files: Seq<LocaleFile>, n: int, m: int)
    requires
        0 <= n <= m <= files.len(),
        spec_load(files.take(n)) is Err,
    ensures
        spec_load(files.take(m)) == spec_load(files.take(n)),
    decreases m - n,
{
    if m > n {
        lemma_load_error_persists(files, n, m - 1);
        assert(files.take(m).drop_last() =~= files.take(m - 1));
    }
}

/// Normalizes a locale code: trimmed, lowercase, `_` → `-` (`pt_BR` → `pt-br`).
pub fn normalize(code: &str) -> (r: String)
    ensures
        r@ == spec_normalize(code@),
{
    let t = trim_chars(&chars_of(code));
    let mut out: Vec<char> = Vec::new();
    let mut i: usize = 0;
    while i < t.len()
        invariant
            i <= t@.len(),
            t@ == trim(code@),
            out@ == spec_normalize(code@).take(i as int),
        decreases t@.len() - i,
    {
        let c = ascii_lower(t[i]);
        let c = if c == '_' {
            '-'
        } else {
            c
        };
        out.push(c);
        proof {
            assert(out@ =~= spec_normalize(code@).take(i + 1));
        }
        i = i + 1;
    }
    proof {
        assert(out@ =~= spec_normalize(code@));
    }
    string_of(&out)
}

/// The bare language subtag of a normalized code (`pt-br` → `pt`).
pub fn lang_subtag(code: &str) -> (r: String)
    ensures
        r@ == spec_lang_subtag(code@),
{
    let v = chars_of(code);
    let end = find_from(&v, '-', 0);
    proof {
        assert(v@.skip(0) =~= v@);
    }
    string_of(&slice_chars(&v, 0, end))
}

/// The text direction for a resolved locale code.
pub fn direction(code: &str) -> (r: &'static str)
    ensures
        r@ == spec_direction(code@),
{
    let t = lang_subtag(code);
    let s = t.as_str();
    if compare(s, "ar") == Order::Equal || compare(s, "he") == Order::Equal || compare(s, "fa")
        == Order::Equal || compare(s, "ur") == Order::Equal {
        "rtl"
    } else {
        "ltr"
    }
}

/// Overlays the entries of `top` onto `base`, each replacing any entry of
/// `base` with the same key.
fn overlay(base: &mut Dict<String>, top: &Dict<String>)
    ensures
        table_view(*final(base)) == table_view(*old(base)).union_prefer_right(table_view(*top)),
{
    let pairs = top.pairs();
    let ghost start = table_view(*base);
    let mut i: usize = 0;
    proof {
        assert(pairs@.take(0) =~= Seq::<(String, String)>::empty());
        assert(entries_map(pairs@.take(0)) =~= Map::<Seq<char>, String>::empty());
        assert(table_view(*base) =~= start.union_prefer_right(
            entries_map(pairs@.take(0)).map_values(|v: String| v@),
        ));
    }
    while i < pairs.len()
        invariant
            i <= pairs@.len(),
            keys_ascending(pairs@),
            entries_map(pairs@) == top@,
            table_view(*base) == start.union_prefer_right(
                entries_map(pairs@.take(i as int)).map_values(|v: String| v@),
            ),
        decreases pairs@.len() - i,
    {
        let k = pairs[i].0.clone();
        let v = pairs[i].1.clone();
        let ghost old_base = *base;
        base.insert(k, v);
        proof {
            assert(table_view(*base) =~= table_view(old_base).insert(pairs@[i as int].0@, pairs@[i as int].1@));
            let pre = pairs@.take(i as int);
            assert(pairs@.take(i + 1) =~= pre.insert(i as int, pairs@[i as int]));
            assert(keys_ascending(pre));
            assert forall|j: int| 0 <= j < i implies crate::text::seq_lt(#[trigger] pre[j].0@, pairs@[i as int].0@) by {
                assert(pre[j] == pairs@[j]);
            }
            crate::dict::lemma_entry_insert(pre, i as int, pairs@[i as int]);
            let k_ = pairs@[i as int].0@;
            let v_ = pairs@[i as int].1;
            assert(entries_map(pairs@.take(i + 1)) == entries_map(pre).insert(k_, v_));
            assert(entries_map(pairs@.take(i + 1)).map_values(|v: String| v@) =~= entries_map(pre).map_values(
                |v: String| v@,
            ).insert(k_, v_@));
            assert(table_view(*base) =~= start.union_prefer_right(
                entries_map(pairs@.take(i + 1)).map_values(|v: String| v@),
            ));
        }
        i = i + 1;
    }
    proof {
        assert(pairs@.take(pairs@.len() as int) =~= pairs@);
        assert(table_view(*top) =~= entries_map(pairs@).map_values(|v: String| v@));
    }
}

/// A loaded locale: its code, text direction and resolved strings.
pub struct Lang {
    /// The resolved locale code (e.g. `"es"`, `"pt-br"`).
    pub code: String,
    /// `"rtl"` for right-to-left scripts, otherwise `"ltr"`.
    pub dir: String,
    /// The resolved strings, English-completed.
    pub strings: Dict<String>,
}

impl Lang {
    /// The locale's code.
    pub open spec fn code_view(&self) -> Seq<char> {
        self.code@
    }

    /// The locale's text direction.
    pub open spec fn dir_view(&self) -> Seq<char> {
        self.dir@
    }

    /// The locale's strings, by key.
    pub open spec fn table(&self) -> Map<Seq<char>, Seq<char>> {
        table_view(self.strings)
    }

    /// The translation for `key`, or the key itself if no string is defined
    /// even in the English fallback (so a missing key is visible, not blank).
    pub fn t<'a>(&'a self, key: &'a str) -> (r: &'a str)
        ensures
            r@ == if self.table().contains_key(key@) {
                self.table()[key@]
            } else {
                key@
            },
    {
        match self.strings.get(key) {
            Some(v) => v.as_str(),
            None => key,
        }
    }

    /// Every resolved key/value pair, English-completed. This is the payload
    /// handed to the webview in one shot when the locale changes.
    pub fn strings(&self) -> (r: &Dict<String>)
        ensures
            table_view(*r) == self.table(),
    {
        &self.strings
    }
}

/// The localization catalogue: every shipped locale's strings, by code.
pub struct Catalog {
    locales: Dict<Dict<String>>,
}

impl Catalog {
    /// The catalogue: each shipped locale code with its strings.
    pub closed spec fn view(&self) -> Map<Seq<char>, Map<Seq<char>, Seq<char>>> {
        self.locales@.map_values(|d: Dict<String>| table_view(d))
    }

    /// Builds the catalogue from the shipped locale files, in order: each
    /// `<code>.json` becomes the locale named by its normalized stem (a later
    /// file replaces an earlier one with the same code), and files without a
    /// stem or with another extension are passed over. A file that is not
    /// UTF-8 or not a flat JSON object of strings is reported as the error.
    pub fn load(files: Vec<LocaleFile>) -> (r: Result<Catalog, String>)
        ensures
            match r {
                Ok(c) => spec_load(files@) == Ok::<Map<Seq<char>, Map<Seq<char>, Seq<char>>>, Seq<char>>(c@),
                Err(e) => spec_load(files@) == Err::<Map<Seq<char>, Map<Seq<char>, Seq<char>>>, Seq<char>>(e@),
            },
    {
        let mut locales: Dict<Dict<String>> = Dict::new();
        let mut i: usize = 0;
        proof {
            assert(files@.take(0) =~= Seq::<LocaleFile>::empty());
            assert(locales@.map_values(|d: Dict<String>| table_view(d)) =~= Map::<
                Seq<char>,
                Map<Seq<char>, Seq<char>>,
            >::empty());
        }
        while i < files.len()
            invariant
                i <= files@.len(),
                spec_load(files@.take(i as int)) == Ok::<Map<Seq<char>, Map<Seq<char>, Seq<char>>>, Seq<char>>(
                    locales@.map_values(|d: Dict<String>| table_view(d)),
                ),
            decreases files@.len() - i,
        {
            let ghost pre = files@.take(i as int);
            proof {
                assert(files@.take(i + 1).drop_last() =~= pre);
                assert(files@.take(i + 1).last() == files@[i as int]);
            }
            let file = &files[i];
            let ghost before_map = locales@.map_values(|d: Dict<String>| table_view(d));
            match file_stem(file.path.as_str()) {
                None => {},
                Some(stem) => {
                    let is_json = match file_extension(file.path.as_str()) {
                        Some(ext) => {
                            compare(ext.as_str(), "json") == Order::Equal
                        },
                        None => false,
                    };
                    if is_json {
                        match &file.contents {
                            None => {
                                proof {
                                    lemma_load_error_persists(files@, i + 1, files@.len() as int);
                                    assert(files@.take(files@.len() as int) =~= files@);
                                }
                                return Err("locale file is not UTF-8".to_owned());
                            },
                            Some(body) => {
                                let parsed = parse_flat_json(body.as_str());
                                match locale_table(stem.as_str(), parsed) {
                                    Err(m) => {
                                        proof {
                                            lemma_load_error_persists(files@, i + 1, files@.len() as int);
                                            assert(files@.take(files@.len() as int) =~= files@);
                                        }
                                        return Err(m);
                                    },
                                    Ok((code, table)) => {
                                        let ghost t = table_view(table);
                                        locales.insert(code, table);
                                        proof {
                                            assert(locales@.map_values(|d: Dict<String>| table_view(d))
                                                =~= before_map.insert(spec_normalize(stem@), t));
                                        }
                                    },
                                }
                            },
                        }
                    }
                },
            }
            i = i + 1;
        }
        proof {
            assert(files@.take(files@.len() as int) =~= files@);
        }
        Ok(Catalog { locales })
    }

    /// Every available locale code, sorted.
    pub fn available(&self) -> (r: Vec<String>)
        ensures
            forall|i: int, j: int| 0 <= i < j < r@.len() ==> crate::text::seq_lt(#[trigger] r@[i]@, #[trigger] r@[j]@),
            forall|i: int| 0 <= i < r@.len() ==> #[trigger] self@.contains_key(r@[i]@),
            forall|k: Seq<char>| #[trigger] self@.contains_key(k) ==> crate::dict::key_views(r@).contains(k),
    {
        self.locales.keys()
    }

    /// Whether `code` (after normalization) is shipped.
    pub fn has(&self, code: &str) -> (r: bool)
        ensures
            r == self@.contains_key(spec_normalize(code@)),
    {
        let norm = normalize(code);
        self.locales.contains_key(norm.as_str())
    }

    /// The shipped locale `code` resolves to (see [`spec_resolve`]).
    pub fn resolve(&self, code: &str) -> (r: String)
        ensures
            r@ == spec_resolve(self@.dom(), code@),
    {
        let norm = normalize(code);
        if self.locales.contains_key(norm.as_str()) {
            return norm;
        }
        let subtag = lang_subtag(norm.as_str());
        if self.locales.contains_key(subtag.as_str()) {
            return subtag;
        }
        FALLBACK.to_owned()
    }

    /// Resolves `code` to a [`Lang`], completing it against English.
    ///
    /// `code` is normalized (lowercased, `_` → `-`); an exact match wins, else
    /// the bare language subtag is tried (`pt-pt` → `pt`), else the English
    /// fallback. The returned strings always cover every English key.
    pub fn for_code(&self, code: &str) -> (l: Lang)
        ensures
            l.code_view() == spec_resolve(self@.dom(), code@),
            l.dir_view() == spec_direction(l.code_view()),
            l.table() == spec_lang_table(self@, l.code_view()),
    {
        let resolved = self.resolve(code);
        let mut strings: Dict<String> = Dict::new();
        proof {
            assert(table_view(strings) =~= Map::<Seq<char>, Seq<char>>::empty());
        }
        match self.locales.get(FALLBACK) {
            Some(en) => {
                overlay(&mut strings, en);
                proof {
                    assert(table_view(strings) =~= table_view(*en));
                }
            },
            None => {},
        }
        let is_fallback = compare(resolved.as_str(), FALLBACK) == Order::Equal;
        if !is_fallback {
            match self.locales.get(resolved.as_str()) {
                Some(top) => {
                    overlay(&mut strings, top);
                },
                None => {},
            }
        }
        let dir = direction(resolved.as_str()).to_owned();
        Lang { dir, code: resolved, strings }
    }

    /// The best locale for the environment's locale settings, given in POSIX
    /// precedence (`LC_ALL`, `LC_MESSAGES`, `LANG`; `None` where unset): the
    /// first non-empty value whose code, taken up to its first `.`, or whose
    /// language subtag is shipped; English when none is.
    pub fn detect(&self, env: &Vec<Option<String>>) -> (l: Lang)
        ensures
            l.code_view() == spec_resolve(self@.dom(), spec_detect(self@.dom(), env@.map_values(|v: Option<String>| opt_view(v)))),
            l.dir_view() == spec_direction(l.code_view()),
            l.table() == spec_lang_table(self@, l.code_view()),
    {
        let ghost views = env@.map_values(|v: Option<String>| opt_view(v));
        let mut i: usize = 0;
        proof {
            assert(views.skip(0) =~= views);
        }
        while i < env.len()
            invariant
                i <= env@.len(),
                views == env@.map_values(|v: Option<String>| opt_view(v)),
                spec_detect(self@.dom(), views) == spec_detect(self@.dom(), views.skip(i as int)),
            decreases env@.len() - i,
        {
            proof {
                assert(views.skip(i as int).drop_first() =~= views.skip(i + 1));
                assert(views.skip(i as int)[0] == opt_view(env@[i as int]));
            }
            match &env[i] {
                Some(val) => {
                    if val.unicode_len() > 0 {
                        let v = chars_of(val.as_str());
                        let end = find_from(&v, '.', 0);
                        proof {
                            assert(v@.skip(0) =~= v@);
                        }
                        let head = string_of(&slice_chars(&v, 0, end));
                        let code = normalize(head.as_str());
                        let sub = lang_subtag(code.as_str());
                        if self.has(code.as_str()) || self.has(sub.as_str()) {
                            return self.for_code(code.as_str());
                        }
                    }
                },
                None => {},
            }
            i = i + 1;
        }
        proof {
            assert(views.skip(i as int).len() == 0);
            reveal_strlit("en");
        }
        self.for_code(FALLBACK)
    }
}

/// What a locale file contributes once its text was parsed: the locale
/// named by the normalized `stem` with the parsed entries (a later entry
/// replacing an earlier one with the same key), or, when the text was not a
/// flat JSON object of strings, the error naming the locale and carrying the
/// parser's message.
pub fn locale_table(stem: &str, parsed: Result<Vec<(String, String)>, String>) -> (r: Result<
    (String, Dict<String>),
    String,
>)
    ensures
        match parsed {
            Ok(pairs) => r matches Ok((code, t)) && code@ == spec_normalize(stem@) && table_view(t)
                == table_of(pair_views(pairs@)),
            Err(e) => r matches Err(m) && m@ == "locale "@ + stem@ + " is not flat JSON: "@ + e@,
        },
{
    match parsed {
        Err(e) => {
            let mut m = "locale ".to_owned();
            m.append(stem);
            m.append(" is not flat JSON: ");
            m.append(e.as_str());
            Err(m)
        },
        Ok(pairs) => Ok((normalize(stem), table_from(&pairs))),
    }
}

/// The table built from a list of pairs, a later pair replacing an earlier
/// one with the same key.
fn table_from(pairs: &Vec<(String, String)>) -> (d: Dict<String>)
    ensures
        table_view(d) == table_of(pair_views(pairs@)),
{
    let mut d: Dict<String> = Dict::new();
    let mut i: usize = 0;
    proof {
        assert(pair_views(pairs@).take(0) =~= Seq::<(Seq<char>, Seq<char>)>::empty());
        assert(table_view(d) =~= Map::<Seq<char>, Seq<char>>::empty());
    }
    while i < pairs.len()
        invariant
            i <= pairs@.len(),
            table_view(d) == table_of(pair_views(pairs@).take(i as int)),
        decreases pairs@.len() - i,
    {
        d.insert(pairs[i].0.clone(), pairs[i].1.clone());
        proof {
            let pv = pair_views(pairs@);
            assert(pv.take(i + 1).drop_last() =~= pv.take(i as int));
            assert(table_view(d) =~= table_of(pv.take(i + 1)));
        }
        i = i + 1;
    }
    proof {
        assert(pair_views(pairs@).take(pairs@.len() as int) =~= pair_views(pairs@));
    }
    d
}

/// Every locale resolves to strings that cover every English key.
pub proof fn law_completed_against_english(
    locales: Map<Seq<char>, Map<Seq<char>, Seq<char>>>,
    code: Seq<char>,
    key: Seq<char>,
)
    requires
        locales.contains_key(FALLBACK@),
        locales[FALLBACK@].contains_key(key),
    ensures
        spec_lang_table(locales, spec_resolve(locales.dom(), code)).contains_key(key),
{
}

/// Normalizing a normalized code changes nothing.
pub proof fn lemma_normalize_idempotent(code: Seq<char>)
    ensures
        spec_normalize(spec_normalize(code)) == spec_normalize(code),
{
    let t = trim(code);
    let n = spec_normalize(code);
    lemma_trim_shape(code);
    assert(n.len() == t.len());
    if n.len() > 0 {
        assert(n[0] == (if lower(t[0]) == '_' { '-' } else { lower(t[0]) }));
        assert(n.last() == n[n.len() - 1]);
        assert(n[n.len() - 1] == (if lower(t[t.len() - 1]) == '_' { '-' } else { lower(t[t.len() - 1]) }));
    }
    lemma_trim_fixed(n);
    assert(spec_normalize(n) =~= n);
}

/// Entries before `k` that are unset or empty are passed over.
proof fn lemma_detect_skips_unset(codes: Set<Seq<char>>, env: Seq<Option<Seq<char>>>, k: int)
    requires
        0 <= k <= env.len(),
        forall|j: int| 0 <= j < k ==> (#[trigger] env[j] is None || env[j]->0.len() == 0),
    ensures
        spec_detect(codes, env) == spec_detect(codes, env.skip(k)),
    decreases k,
{
    if k == 0 {
        assert(env.skip(0) =~= env);
    } else {
        assert(env[0] is None || env[0]->0.len() == 0);
        let rest = env.drop_first();
        assert forall|j: int| 0 <= j < k - 1 implies (#[trigger] rest[j] is None || rest[j]->0.len() == 0) by {
            assert(rest[j] == env[j + 1]);
        }
        lemma_detect_skips_unset(codes, rest, k - 1);
        assert(rest.skip(k - 1) =~= env.skip(k));
    }
}

/// The locale chosen from the environment is the exact code of its first set,
/// non-empty value (cut at the first `.` and normalized) whenever that code
/// is shipped: a shipped `pt-br` wins over a shipped `pt` for `pt_BR.UTF-8`.
/// Only when the exact code is not shipped can its language subtag or English
/// be chosen.
pub proof fn law_detect_prefers_the_exact_code(codes: Set<Seq<char>>, env: Seq<Option<Seq<char>>>, k: int)
    requires
        0 <= k < env.len(),
        forall|j: int| 0 <= j < k ==> (#[trigger] env[j] is None || env[j]->0.len() == 0),
        env[k] matches Some(val) && val.len() > 0,
        codes.contains(spec_normalize(before(env[k]->0, '.'))),
    ensures
        spec_resolve(codes, spec_detect(codes, env)) == spec_normalize(before(env[k]->0, '.')),
{
    let c = spec_normalize(before(env[k]->0, '.'));
    lemma_normalize_idempotent(before(env[k]->0, '.'));
    lemma_detect_skips_unset(codes, env, k);
    assert(env.skip(k)[0] == env[k]);
    assert(spec_detect(codes, env.skip(k)) == c);
}

/// A code resolves to its own normalized form when that is shipped, and to
/// its language subtag only when the normalized form is not shipped but the
/// subtag is (`pt_BR` gives `pt-br` when shipped, else `pt`).
pub proof fn law_exact_code_before_subtag(codes: Set<Seq<char>>, code: Seq<char>)
    ensures
        codes.contains(spec_normalize(code)) ==> spec_resolve(codes, code) == spec_normalize(code),
        !codes.contains(spec_normalize(code)) && codes.contains(spec_lang_subtag(spec_normalize(code)))
            ==> spec_resolve(codes, code) == spec_lang_subtag(spec_normalize(code)),
        codes.contains(spec_resolve(codes, code)) || spec_resolve(codes, code) == FALLBACK@,
{
}

/// A code whose normalized form and language subtag are both unshipped
/// resolves to English.
pub proof fn law_unknown_resolves_to_english(codes: Set<Seq<char>>, code: Seq<char>)
    requires
        !codes.contains(spec_normalize(code)),
        !codes.contains(spec_lang_subtag(spec_normalize(code))),
    ensures
        spec_resolve(codes, code) == FALLBACK@,
{
}

} // verus!
