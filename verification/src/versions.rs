//! Bundled engine version catalogue.
//!
//! The supported stable major families are baked in here and refreshed each
//! release, which keeps the application offline-friendly. Only stable majors
//! are listed, newest first, capped at [`SUPPORTED_MAJORS`] families per engine.

use vstd::prelude::*;
use crate::engine::DbType;
use crate::engine::proc::digits_value;
use crate::text::{chars_of, compare, find, find_from, lemma_find, lemma_find_append, slice_chars, string_of, Order};

verus! {

/// How many stable major families are offered per engine.
pub const SUPPORTED_MAJORS: usize = 4;

/// The views of a sequence of string slices.
pub open spec fn str_views(s: Seq<&str>) -> Seq<Seq<char>> {
    s.map_values(|x: &str| x@)
}

/// The bundled stable major families for `db`, newest first.
pub open spec fn spec_families(db: DbType) -> Seq<Seq<char>> {
    match db {
        DbType::Postgres => seq!["18"@, "17"@, "16"@, "15"@],
        DbType::Mysql => seq!["9.4"@, "9.3"@, "8.4"@, "8.0"@],
        DbType::Mariadb => seq!["11.8"@, "11.4"@, "11.2"@, "10.11"@],
        DbType::Valkey => seq!["8.1"@, "8.0"@, "7.2"@],
        DbType::Redis => seq!["7.4"@, "7.2"@, "6.2"@],
        DbType::Mongodb => seq!["8.0"@, "7.0"@, "6.0"@, "5.0"@],
    }
}

/// The bundled stable major families for `db`, newest first; at most
/// [`SUPPORTED_MAJORS`] of them.
pub fn families(db: DbType) -> (r: &'static [&'static str])
    ensures
        str_views(r@) == spec_families(db),
{
    let r: &'static [&'static str] = match db {
        DbType::Postgres => &["18", "17", "16", "15"],
        DbType::Mysql => &["9.4", "9.3", "8.4", "8.0"],
        DbType::Mariadb => &["11.8", "11.4", "11.2", "10.11"],
        DbType::Valkey => &["8.1", "8.0", "7.2"],
        DbType::Redis => &["7.4", "7.2", "6.2"],
        DbType::Mongodb => &["8.0", "7.0", "6.0", "5.0"],
    };
    assert(str_views(r@) =~= spec_families(db));
    r
}


/// The newest stable major family for `db`, if any is tracked.
pub fn latest(db: DbType) -> (r: Option<&'static str>)
    ensures
        r matches Some(f) && f@ == spec_families(db)[0],
{
    let fams = families(db);
    assert(fams@.len() > 0) by {
        assert(str_views(fams@).len() == fams@.len());
    }
    assert(str_views(fams@)[0] == fams@[0]@);
    Some(fams[0])
}

/// The major-version key of a full version string: the part before the first
/// dot, or, for dotted majors, the part before the second dot.
pub open spec fn spec_major_key(version: Seq<char>, dotted: bool) -> Seq<char> {
    let p = find(version, '.');
    if dotted && p < version.len() {
        version.take(p + 1 + find(version.skip(p + 1), '.'))
    } else {
        version.take(p)
    }
}

/// Whether `version` belongs to the major `family` (a family written with a
/// dot spans two segments).
pub open spec fn spec_major_match(version: Seq<char>, family: Seq<char>) -> bool {
    spec_major_key(version, family.contains('.')) == family
}

/// The major-version key of a full version string: `"17.4"` keys to `"17"`;
/// with `dotted`, `"8.4.2"` keys to `"8.4"`.
pub fn major_key(version: &str, dotted: bool) -> (r: String)
    ensures
        r@ == spec_major_key(version@, dotted),
{
    let v = chars_of(version);
    proof {
        assert(v@.skip(0) =~= v@);
    }
    let p = find_from(&v, '.', 0);
    if dotted && p < v.len() {
        let q = find_from(&v, '.', p + 1);
        string_of(&slice_chars(&v, 0, q))
    } else {
        string_of(&slice_chars(&v, 0, p))
    }
}

/// Whether `version` belongs to the major `family`.
pub fn major_match(version: &str, family: &str) -> (b: bool)
    ensures
        b == spec_major_match(version@, family@),
{
    let f = chars_of(family);
    proof {
        assert(f@.skip(0) =~= f@);
        lemma_find(f@, '.');
    }
    let dotted = find_from(&f, '.', 0) < f.len();
    let key = major_key(version, dotted);
    compare(key.as_str(), family) == Order::Equal
}

/// `f` holds no dot after its first one.
pub open spec fn at_most_one_dot(f: Seq<char>) -> bool {
    find(f, '.') == f.len() || !f.skip(find(f, '.') + 1).contains('.')
}

/// A family written with at most one dot keys to itself, and so does every
/// version that extends it with a further dotted segment (`"18"` matches
/// `"18"` and `"18.2.1"`; `"8.4"` matches `"8.4"` and `"8.4.2"`).
pub proof fn law_family_matches_its_versions(f: Seq<char>, rest: Seq<char>)
    requires
        at_most_one_dot(f),
    ensures
        spec_major_match(f, f),
        spec_major_match(f + seq!['.'] + rest, f),
{
    let v = f + seq!['.'] + rest;
    lemma_find(f, '.');
    let p = find(f, '.');
    assert(v =~= f + (seq!['.'] + rest));
    lemma_find_append(f, seq!['.'] + rest, '.');
    assert((seq!['.'] + rest)[0] == '.');
    assert(find(seq!['.'] + rest, '.') == 0);
    if p == f.len() {
        assert(!f.contains('.'));
        assert(f.take(p) =~= f);
        assert(find(v, '.') == f.len());
        assert(v.take(f.len() as int) =~= f);
    } else {
        assert(f.contains('.')) by {
            assert(f[p] == '.');
        }
        let t = f.skip(p + 1);
        lemma_find(t, '.');
        assert(find(t, '.') == t.len());
        assert(f.take(p + 1 + t.len()) =~= f);
        assert(find(v, '.') == p);
        assert(v.skip(p + 1) =~= t + (seq!['.'] + rest));
        lemma_find_append(t, seq!['.'] + rest, '.');
        assert(find(v.skip(p + 1), '.') == t.len());
        assert(v.take(p + 1 + t.len()) =~= f);
    }
}


/// The numbers a family is written with: its major and (after a dot) its
/// minor, 0 when it has none.
pub open spec fn family_key(f: Seq<char>) -> (nat, nat) {
    let d = find(f, '.');
    (digits_value(f.take(d)), if d < f.len() {
        digits_value(f.skip(d + 1))
    } else {
        0
    })
}

/// Family `a` is a newer release line than family `b`.
pub open spec fn newer(a: (nat, nat), b: (nat, nat)) -> bool {
    a.0 > b.0 || (a.0 == b.0 && a.1 > b.1)
}

/// The value of one or two decimal digits.
proof fn lemma_small_digits(s: Seq<char>)
    requires
        1 <= s.len() <= 2,
        forall|i: int| 0 <= i < s.len() ==> '0' <= #[trigger] s[i] && s[i] <= '9',
    ensures
        s.len() == 1 ==> digits_value(s) == (s[0] as int) - ('0' as int),
        s.len() == 2 ==> digits_value(s) == ((s[0] as int) - ('0' as int)) * 10 + (s[1] as int) - ('0' as int),
{
    reveal_with_fuel(digits_value, 3);
    if s.len() == 2 {
        assert(s.drop_last().drop_last().len() == 0);
        assert(s.drop_last().last() == s[0]);
        assert(s.drop_last().len() == 1);
    } else {
        assert(s.drop_last().len() == 0);
    }
}

/// A family without a dot is well formed, and keys to its own number.
proof fn lemma_plain_family(f: Seq<char>)
    requires
        !f.contains('.'),
    ensures
        at_most_one_dot(f),
        family_key(f) == (digits_value(f), 0nat),
{
    lemma_find(f, '.');
    assert(f.take(f.len() as int) =~= f);
}

/// A family with exactly one dot is well formed.
proof fn lemma_dotted_family(f: Seq<char>, a: Seq<char>, b: Seq<char>)
    requires
        f =~= a + seq!['.'] + b,
        !a.contains('.'),
        !b.contains('.'),
    ensures
        at_most_one_dot(f),
        family_key(f) == (digits_value(a), digits_value(b)),
{
    assert(f =~= a + (seq!['.'] + b));
    lemma_find_append(a, seq!['.'] + b, '.');
    assert((seq!['.'] + b)[0] == '.');
    lemma_find(a, '.');
    assert(find(f, '.') == a.len());
    assert(f.skip(a.len() + 1 as int) =~= b);
    assert(f.take(a.len() as int) =~= a);
}

/// Every engine offers at least one and at most [`SUPPORTED_MAJORS`] bundled
/// families, each written with at most one dot (so each family matches every
/// version string of that family), all distinct and listed newest first.
pub proof fn law_bundled_families(db: DbType)
    ensures
        0 < spec_families(db).len() <= SUPPORTED_MAJORS,
        forall|i: int|
            0 <= i < spec_families(db).len() ==> at_most_one_dot(#[trigger] spec_families(db)[i]),
        forall|i: int, j: int|
            0 <= i < j < spec_families(db).len() ==> newer(
                family_key(#[trigger] spec_families(db)[i]),
                family_key(#[trigger] spec_families(db)[j]),
            ),
{
    reveal_strlit("18");
    reveal_strlit("17");
    reveal_strlit("16");
    reveal_strlit("15");
    reveal_strlit("9.4");
    reveal_strlit("9.3");
    reveal_strlit("8.4");
    reveal_strlit("8.0");
    reveal_strlit("11.8");
    reveal_strlit("11.4");
    reveal_strlit("11.2");
    reveal_strlit("10.11");
    reveal_strlit("8.1");
    reveal_strlit("7.2");
    reveal_strlit("7.4");
    reveal_strlit("6.2");
    reveal_strlit("7.0");
    reveal_strlit("6.0");
    reveal_strlit("5.0");
    lemma_plain_family("18"@);
    lemma_plain_family("17"@);
    lemma_plain_family("16"@);
    lemma_plain_family("15"@);
    lemma_dotted_family("9.4"@, seq!['9'], seq!['4']);
    lemma_dotted_family("9.3"@, seq!['9'], seq!['3']);
    lemma_dotted_family("8.4"@, seq!['8'], seq!['4']);
    lemma_dotted_family("8.0"@, seq!['8'], seq!['0']);
    lemma_dotted_family("11.8"@, seq!['1', '1'], seq!['8']);
    lemma_dotted_family("11.4"@, seq!['1', '1'], seq!['4']);
    lemma_dotted_family("11.2"@, seq!['1', '1'], seq!['2']);
    lemma_dotted_family("10.11"@, seq!['1', '0'], seq!['1', '1']);
    lemma_dotted_family("8.1"@, seq!['8'], seq!['1']);
    lemma_dotted_family("7.2"@, seq!['7'], seq!['2']);
    lemma_dotted_family("7.4"@, seq!['7'], seq!['4']);
    lemma_dotted_family("6.2"@, seq!['6'], seq!['2']);
    lemma_dotted_family("7.0"@, seq!['7'], seq!['0']);
    lemma_dotted_family("6.0"@, seq!['6'], seq!['0']);
    lemma_dotted_family("5.0"@, seq!['5'], seq!['0']);
    lemma_small_digits("18"@);
    lemma_small_digits("17"@);
    lemma_small_digits("16"@);
    lemma_small_digits("15"@);
    lemma_small_digits(seq!['0']);
    lemma_small_digits(seq!['1']);
    lemma_small_digits(seq!['2']);
    lemma_small_digits(seq!['3']);
    lemma_small_digits(seq!['4']);
    lemma_small_digits(seq!['5']);
    lemma_small_digits(seq!['6']);
    lemma_small_digits(seq!['7']);
    lemma_small_digits(seq!['8']);
    lemma_small_digits(seq!['9']);
    lemma_small_digits(seq!['1', '0']);
    lemma_small_digits(seq!['1', '1']);
}

} // verus!
