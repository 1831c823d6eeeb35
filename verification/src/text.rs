//! Character-level text helpers shared by every module: building strings,
//! decimal and hexadecimal rendering, whitespace and lexicographic order.

use vstd::prelude::*;
use vstd::string::*;

verus! {

/// Appends one character to a string (`String::push`); std documents that it
/// appends the given `char` to the end of the string.
#[verifier::external_body]
pub(crate) fn push_char(s: &mut String, c: char)
    ensures
        final(s)@ == old(s)@.push(c),
{
    s.push(c)
}

/// The characters of `s`, in order.
pub fn chars_of(s: &str) -> (v: Vec<char>)
    ensures
        v@ == s@,
{
    let n = s.unicode_len();
    let mut v: Vec<char> = Vec::new();
    let mut i: usize = 0;
    while i < n
        invariant
            n == s@.len(),
            i <= n,
            v@ == s@.subrange(0, i as int),
        decreases n - i,
    {
        let c = s.get_char(i);
        v.push(c);
        i = i + 1;
        assert(v@ =~= s@.subrange(0, i as int));
    }
    assert(v@ =~= s@);
    v
}

/// A string holding exactly the characters of `cs`.
pub fn string_of(cs: &Vec<char>) -> (s: String)
    ensures
        s@ == cs@,
{
    let mut s = String::new();
    let mut i: usize = 0;
    while i < cs.len()
        invariant
            i <= cs.len(),
            s@ == cs@.subrange(0, i as int),
        decreases cs.len() - i,
    {
        push_char(&mut s, cs[i]);
        i = i + 1;
        assert(s@ =~= cs@.subrange(0, i as int));
    }
    assert(s@ =~= cs@);
    s
}


/// The lowercase hexadecimal digits, indexed by value.
pub open spec fn hex_digits() -> Seq<char> {
    seq!['0', '1', '2', '3', '4', '5', '6', '7', '8', '9', 'a', 'b', 'c', 'd', 'e', 'f']
}

/// The digit character for a value below 16.
pub open spec fn digit(d: nat) -> char {
    hex_digits()[d as int]
}

/// The decimal rendering of `n`, without leading zeros.
pub open spec fn dec(n: nat) -> Seq<char>
    decreases n,
{
    if n < 10 {
        seq![digit(n)]
    } else {
        dec(n / 10).push(digit(n % 10))
    }
}

/// Two lowercase hex digits for one byte, high nibble first.
pub open spec fn hex_byte(b: u8) -> Seq<char> {
    seq![digit((b / 16) as nat), digit((b % 16) as nat)]
}

/// The digit character for `d`.
pub fn digit_char(d: u8) -> (c: char)
    requires
        d < 16,
    ensures
        c == digit(d as nat),
{
    match d {
        0 => '0',
        1 => '1',
        2 => '2',
        3 => '3',
        4 => '4',
        5 => '5',
        6 => '6',
        7 => '7',
        8 => '8',
        9 => '9',
        10 => 'a',
        11 => 'b',
        12 => 'c',
        13 => 'd',
        14 => 'e',
        _ => 'f',
    }
}

/// Appends the decimal rendering of `n` to `out`.
pub fn push_dec(out: &mut String, n: u64)
    ensures
        final(out)@ == old(out)@ + dec(n as nat),
    decreases n,
{
    if n >= 10 {
        push_dec(out, n / 10);
    }
    let c = digit_char((n % 10) as u8);
    push_char(out, c);
    assert(final(out)@ =~= old(out)@ + dec(n as nat)) by {
        if n >= 10 {
            assert(dec(n as nat) == dec((n / 10) as nat).push(digit((n % 10) as nat)));
        }
    }
}

/// Appends the two hex digits of `b` to `out`.
pub fn push_hex_byte(out: &mut String, b: u8)
    ensures
        final(out)@ == old(out)@ + hex_byte(b),
{
    push_char(out, digit_char(b / 16));
    push_char(out, digit_char(b % 16));
    assert(final(out)@ =~= old(out)@ + hex_byte(b));
}

/// Whether `c` has the Unicode `White_Space` property, the set that std's
/// `char::is_whitespace`, `str::trim` and `str::split_whitespace` use.
pub open spec fn is_ws(c: char) -> bool {
    let u = c as int;
    ||| 0x09 <= u <= 0x0D
    ||| u == 0x20
    ||| u == 0x85
    ||| u == 0xA0
    ||| u == 0x1680
    ||| 0x2000 <= u <= 0x200A
    ||| u == 0x2028
    ||| u == 0x2029
    ||| u == 0x202F
    ||| u == 0x205F
    ||| u == 0x3000
}

/// Executable form of [`is_ws`].
pub fn is_whitespace(c: char) -> (b: bool)
    ensures
        b == is_ws(c),
{
    let u = c as u32;
    (0x09 <= u && u <= 0x0D) || u == 0x20 || u == 0x85 || u == 0xA0 || u == 0x1680 || (0x2000
        <= u && u <= 0x200A) || u == 0x2028 || u == 0x2029 || u == 0x202F || u == 0x205F || u
        == 0x3000
}

/// ASCII lowercasing of one character; every other character is unchanged.
pub open spec fn lower(c: char) -> char {
    if 'A' <= c && c <= 'Z' {
        ((c as u32) + 32) as char
    } else {
        c
    }
}

/// ASCII lowercasing of a whole sequence.
pub open spec fn lower_all(s: Seq<char>) -> Seq<char> {
    s.map_values(|c: char| lower(c))
}

/// Lowercases one ASCII letter, as `char::to_ascii_lowercase` does:
/// `'A'..='Z'` map to `'a'..='z'` and every other character is unchanged.
pub fn ascii_lower(c: char) -> (r: char)
    ensures
        r == lower(c),
{
    if 'A' <= c && c <= 'Z' {
        let b: u8 = c as u8;
        let r = (b + 32) as char;
        assert(r == ((c as u32) + 32) as char);
        r
    } else {
        c
    }
}

/// Strict lexicographic order on character sequences, by code point: the
/// order of Rust's `str` comparison.
pub open spec fn seq_lt(a: Seq<char>, b: Seq<char>) -> bool
    decreases a.len(),
{
    if a.len() == 0 {
        b.len() > 0
    } else if b.len() == 0 {
        false
    } else if a[0] != b[0] {
        (a[0] as int) < (b[0] as int)
    } else {
        seq_lt(a.drop_first(), b.drop_first())
    }
}

/// The outcome of a three-way comparison.
#[derive(Clone, Copy, Debug, PartialEq, Eq, Structural)]
pub enum Order {
    Less,
    Equal,
    Greater,
}

/// The meaning of an [`Order`] between two sequences.
pub open spec fn order_of(a: Seq<char>, b: Seq<char>) -> Order {
    if seq_lt(a, b) {
        Order::Less
    } else if a == b {
        Order::Equal
    } else {
        Order::Greater
    }
}

/// `seq_lt` is irreflexive.
pub proof fn lemma_lt_irreflexive(a: Seq<char>)
    ensures
        !seq_lt(a, a),
    decreases a.len(),
{
    if a.len() > 0 {
        lemma_lt_irreflexive(a.drop_first());
    }
}

/// `seq_lt` is transitive.
pub proof fn lemma_lt_transitive(a: Seq<char>, b: Seq<char>, c: Seq<char>)
    requires
        seq_lt(a, b),
        seq_lt(b, c),
    ensures
        seq_lt(a, c),
    decreases a.len(),
{
    if a.len() > 0 && b.len() > 0 && c.len() > 0 && a[0] == b[0] && b[0] == c[0] {
        lemma_lt_transitive(a.drop_first(), b.drop_first(), c.drop_first());
    }
}

/// Two distinct sequences are ordered one way or the other, never both.
pub proof fn lemma_lt_total(a: Seq<char>, b: Seq<char>)
    ensures
        a != b ==> (seq_lt(a, b) || seq_lt(b, a)),
        !(seq_lt(a, b) && seq_lt(b, a)),
    decreases a.len(),
{
    if a.len() > 0 && b.len() > 0 && a[0] == b[0] {
        lemma_lt_total(a.drop_first(), b.drop_first());
        if a != b {
            if a.drop_first() == b.drop_first() {
                assert forall|i: int| 0 <= i < a.len() implies a[i] == b[i] by {
                    if i > 0 {
                        assert(a[i] == a.drop_first()[i - 1]);
                        assert(b[i] == b.drop_first()[i - 1]);
                    }
                }
                assert(a =~= b);
            }
        }
    } else if a.len() == 0 && b.len() == 0 {
        assert(a =~= b);
    } else if a.len() > 0 && b.len() > 0 {
        assert((a[0] as int) != (b[0] as int));
    }
}

/// Three-way comparison of two strings in [`seq_lt`] order.
pub fn compare(a: &str, b: &str) -> (o: Order)
    ensures
        o == order_of(a@, b@),
        (o == Order::Equal) == (a@ == b@),
{
    proof {
        lemma_lt_irreflexive(a@);
    }
    let na = a.unicode_len();
    let nb = b.unicode_len();
    let mut i: usize = 0;
    proof {
        assert(a@.skip(0) =~= a@);
        assert(b@.skip(0) =~= b@);
    }
    while i < na && i < nb
        invariant
            na == a@.len(),
            nb == b@.len(),
            i <= na,
            i <= nb,
            a@.subrange(0, i as int) == b@.subrange(0, i as int),
            seq_lt(a@, b@) == seq_lt(a@.skip(i as int), b@.skip(i as int)),
        decreases na - i,
    {
        let ca = a.get_char(i);
        let cb = b.get_char(i);
        if ca != cb {
            proof {
                assert(a@.skip(i as int)[0] == ca);
                assert(b@.skip(i as int)[0] == cb);
                assert(a@ != b@) by {
                    assert(a@[i as int] != b@[i as int]);
                }
            }
            if (ca as u32) < (cb as u32) {
                return Order::Less;
            } else {
                proof {
                    assert((ca as u32) != (cb as u32));
                }
                return Order::Greater;
            }
        }
        proof {
            assert(a@.skip(i as int).drop_first() =~= a@.skip(i + 1));
            assert(b@.skip(i as int).drop_first() =~= b@.skip(i + 1));
            assert(a@.subrange(0, i + 1) =~= a@.subrange(0, i as int).push(ca));
            assert(b@.subrange(0, i + 1) =~= b@.subrange(0, i as int).push(cb));
        }
        i = i + 1;
    }
    if na == nb {
        proof {
            assert(a@ =~= a@.subrange(0, i as int));
            assert(b@ =~= b@.subrange(0, i as int));
            lemma_lt_irreflexive(a@);
        }
        Order::Equal
    } else if na < nb {
        proof {
            assert(a@.skip(i as int).len() == 0);
            assert(a@.len() != b@.len());
        }
        Order::Less
    } else {
        proof {
            assert(b@.skip(i as int).len() == 0);
            assert(a@.skip(i as int).len() > 0);
            assert(a@.len() != b@.len());
        }
        Order::Greater
    }
}


/// Index of the first `c` in `s`, or `s.len()` when there is none.
pub open spec fn find(s: Seq<char>, c: char) -> int
    decreases s.len(),
{
    if s.len() == 0 {
        0
    } else if s[0] == c {
        0
    } else {
        1 + find(s.drop_first(), c)
    }
}

/// What [`find`] returns: the position of the first `c`, or the length.
pub proof fn lemma_find(s: Seq<char>, c: char)
    ensures
        0 <= find(s, c) <= s.len(),
        find(s, c) < s.len() ==> s[find(s, c)] == c,
        forall|j: int| 0 <= j < find(s, c) ==> s[j] != c,
        (find(s, c) == s.len()) == !s.contains(c),
    decreases s.len(),
{
    if s.len() > 0 && s[0] != c {
        lemma_find(s.drop_first(), c);
        assert forall|j: int| 0 <= j < find(s, c) implies s[j] != c by {
            if j > 0 {
                assert(s[j] == s.drop_first()[j - 1]);
            }
        }
        if s.contains(c) {
            let k = choose|k: int| 0 <= k < s.len() && s[k] == c;
            assert(s.drop_first()[k - 1] == c);
        }
        if s.drop_first().contains(c) {
            let k = choose|k: int| 0 <= k < s.drop_first().len() && s.drop_first()[k] == c;
            assert(s[k + 1] == c);
        }
    }
}

/// Finding `c` in a concatenation: within the first part when it holds `c`,
/// else past it.
pub proof fn lemma_find_append(a: Seq<char>, b: Seq<char>, c: char)
    ensures
        find(a + b, c) == if a.contains(c) {
            find(a, c)
        } else {
            a.len() + find(b, c)
        },
    decreases a.len(),
{
    if a.len() == 0 {
        assert(a + b =~= b);
    } else {
        assert((a + b).drop_first() =~= a.drop_first() + b);
        lemma_find_append(a.drop_first(), b, c);
        if a[0] != c {
            if a.contains(c) {
                let k = choose|k: int| 0 <= k < a.len() && a[k] == c;
                assert(a.drop_first()[k - 1] == c);
            }
            if a.drop_first().contains(c) {
                let k = choose|k: int| 0 <= k < a.drop_first().len() && a.drop_first()[k] == c;
                assert(a[k + 1] == c);
            }
        } else {
            assert(a.contains(c)) by {
                assert(a[0] == c);
            }
        }
    }
}

/// The part of `s` before its first `c` (all of `s` when there is none).
pub open spec fn before(s: Seq<char>, c: char) -> Seq<char> {
    s.take(find(s, c))
}

/// The position of the first `c` at or after `from` in `v`, or `v.len()`.
pub fn find_from(v: &Vec<char>, c: char, from: usize) -> (r: usize)
    requires
        from <= v.len(),
    ensures
        r == from + find(v@.skip(from as int), c),
        from <= r <= v.len(),
{
    let mut i = from;
    proof {
        assert(v@.skip(from as int).skip(0) =~= v@.skip(from as int));
    }
    while i < v.len() && v[i] != c
        invariant
            from <= i <= v.len(),
            find(v@.skip(from as int), c) == (i - from) + find(v@.skip(i as int), c),
        decreases v.len() - i,
    {
        proof {
            assert(v@.skip(i as int).drop_first() =~= v@.skip(i + 1));
        }
        i = i + 1;
    }
    proof {
        lemma_find(v@.skip(i as int), c);
    }
    i
}

/// The characters of `v` from `lo` up to `hi`.
pub fn slice_chars(v: &Vec<char>, lo: usize, hi: usize) -> (r: Vec<char>)
    requires
        lo <= hi <= v.len(),
    ensures
        r@ == v@.subrange(lo as int, hi as int),
{
    let mut r: Vec<char> = Vec::new();
    let mut i = lo;
    while i < hi
        invariant
            lo <= i <= hi <= v.len(),
            r@ == v@.subrange(lo as int, i as int),
        decreases hi - i,
    {
        r.push(v[i]);
        i = i + 1;
        assert(r@ =~= v@.subrange(lo as int, i as int));
    }
    r
}

/// Whether `s` begins with `p`.
pub open spec fn starts_with(s: Seq<char>, p: Seq<char>) -> bool {
    p.len() <= s.len() && s.take(p.len() as int) == p
}

/// Executable form of [`starts_with`].
pub fn has_prefix(v: &Vec<char>, p: &str) -> (b: bool)
    ensures
        b == starts_with(v@, p@),
{
    let pn = p.unicode_len();
    if pn > v.len() {
        return false;
    }
    let mut i: usize = 0;
    while i < pn
        invariant
            pn == p@.len(),
            pn <= v.len(),
            i <= pn,
            forall|j: int| 0 <= j < i ==> v@[j] == p@[j],
        decreases pn - i,
    {
        if v[i] != p.get_char(i) {
            assert(v@.take(pn as int)[i as int] != p@[i as int]);
            return false;
        }
        i = i + 1;
    }
    assert(v@.take(pn as int) =~= p@);
    true
}

/// Leading whitespace removed.
pub open spec fn trim_start(s: Seq<char>) -> Seq<char>
    decreases s.len(),
{
    if s.len() > 0 && is_ws(s[0]) {
        trim_start(s.drop_first())
    } else {
        s
    }
}

/// Trailing whitespace removed.
pub open spec fn trim_end(s: Seq<char>) -> Seq<char>
    decreases s.len(),
{
    if s.len() > 0 && is_ws(s.last()) {
        trim_end(s.drop_last())
    } else {
        s
    }
}

/// Leading and trailing whitespace removed (std's `str::trim`).
pub open spec fn trim(s: Seq<char>) -> Seq<char> {
    trim_end(trim_start(s))
}

/// What is left after leading whitespace goes does not start with whitespace.
pub proof fn lemma_trim_start_shape(s: Seq<char>)
    ensures
        trim_start(s).len() > 0 ==> !is_ws(trim_start(s)[0]),
    decreases s.len(),
{
    if s.len() > 0 && is_ws(s[0]) {
        lemma_trim_start_shape(s.drop_first());
    }
}

/// Dropping trailing whitespace keeps a prefix that does not end with
/// whitespace.
pub proof fn lemma_trim_end_shape(s: Seq<char>)
    ensures
        trim_end(s).len() <= s.len(),
        trim_end(s) == s.take(trim_end(s).len() as int),
        trim_end(s).len() > 0 ==> !is_ws(trim_end(s).last()),
    decreases s.len(),
{
    if s.len() > 0 && is_ws(s.last()) {
        lemma_trim_end_shape(s.drop_last());
        assert(s.drop_last().take(trim_end(s).len() as int) =~= s.take(trim_end(s).len() as int));
    } else {
        assert(s.take(s.len() as int) =~= s);
    }
}

/// A trimmed sequence neither starts nor ends with whitespace.
pub proof fn lemma_trim_shape(s: Seq<char>)
    ensures
        trim(s).len() > 0 ==> !is_ws(trim(s)[0]) && !is_ws(trim(s).last()),
{
    lemma_trim_start_shape(s);
    lemma_trim_end_shape(trim_start(s));
}

/// A sequence that neither starts nor ends with whitespace is its own trim.
pub proof fn lemma_trim_fixed(s: Seq<char>)
    requires
        s.len() > 0 ==> !is_ws(s[0]) && !is_ws(s.last()),
    ensures
        trim(s) == s,
{
}

/// Executable form of [`trim`] on a character vector.
pub fn trim_chars(v: &Vec<char>) -> (r: Vec<char>)
    ensures
        r@ == trim(v@),
{
    let mut a: usize = 0;
    proof {
        assert(v@.skip(0) =~= v@);
    }
    while a < v.len() && is_whitespace(v[a])
        invariant
            a <= v.len(),
            trim_start(v@) == trim_start(v@.skip(a as int)),
        decreases v.len() - a,
    {
        proof {
            assert(v@.skip(a as int).drop_first() =~= v@.skip(a + 1));
        }
        a = a + 1;
    }
    let ghost t = v@.skip(a as int);
    assert(trim_start(v@) == t);
    let mut b: usize = v.len();
    proof {
        assert(t.take(t.len() as int) =~= t);
    }
    while b > a && is_whitespace(v[b - 1])
        invariant
            a <= b <= v.len(),
            t == v@.skip(a as int),
            trim_end(t) == trim_end(t.take(b - a)),
        decreases b,
    {
        proof {
            assert(t.take(b - a).drop_last() =~= t.take(b - 1 - a));
            assert(t.take(b - a).last() == v@[b - 1]);
        }
        b = b - 1;
    }
    let r = slice_chars(v, a, b);
    assert(r@ =~= t.take(b - a));
    r
}

/// Whitespace-separated words, accumulating the current word in `cur`.
pub open spec fn words_from(s: Seq<char>, cur: Seq<char>) -> Seq<Seq<char>>
    decreases s.len(),
{
    if s.len() == 0 {
        if cur.len() > 0 {
            seq![cur]
        } else {
            seq![]
        }
    } else if is_ws(s[0]) {
        (if cur.len() > 0 {
            seq![cur]
        } else {
            seq![]
        }) + words_from(s.drop_first(), seq![])
    } else {
        words_from(s.drop_first(), cur.push(s[0]))
    }
}

/// The maximal runs of non-whitespace characters of `s` (std's
/// `str::split_whitespace`).
pub open spec fn words(s: Seq<char>) -> Seq<Seq<char>> {
    words_from(s, seq![])
}

/// The character vectors of `ws`, as sequences.
pub open spec fn views(ws: Seq<Vec<char>>) -> Seq<Seq<char>> {
    ws.map_values(|w: Vec<char>| w@)
}

/// Executable form of [`words`].
pub fn split_words(v: &Vec<char>) -> (r: Vec<Vec<char>>)
    ensures
        views(r@) == words(v@),
{
    let mut r: Vec<Vec<char>> = Vec::new();
    let mut cur: Vec<char> = Vec::new();
    let mut i: usize = 0;
    proof {
        assert(v@.skip(0) =~= v@);
        assert(views(r@) =~= Seq::<Seq<char>>::empty());
        assert(cur@ =~= Seq::<char>::empty());
    }
    while i < v.len()
        invariant
            i <= v.len(),
            views(r@) + words_from(v@.skip(i as int), cur@) == words(v@),
        decreases v.len() - i,
    {
        let c = v[i];
        let ghost rest = v@.skip(i as int);
        let ghost old_r = views(r@);
        let ghost old_cur = cur@;
        proof {
            assert(rest.drop_first() =~= v@.skip(i + 1));
            assert(rest[0] == c);
        }
        if is_whitespace(c) {
            let ghost head: Seq<Seq<char>> = if old_cur.len() > 0 {
                seq![old_cur]
            } else {
                seq![]
            };
            if cur.len() > 0 {
                let w = cur;
                cur = Vec::new();
                r.push(w);
                assert(views(r@) =~= old_r + head);
            } else {
                cur = Vec::new();
                assert(views(r@) =~= old_r + head);
            }
            proof {
                assert(cur@ =~= Seq::<char>::empty());
                assert(words_from(rest, old_cur) == head + words_from(rest.drop_first(), seq![]));
                assert(old_r + (head + words_from(v@.skip(i + 1), seq![])) =~= (old_r + head)
                    + words_from(v@.skip(i + 1), seq![]));
            }
        } else {
            cur.push(c);
            proof {
                assert(words_from(rest, old_cur) == words_from(rest.drop_first(), old_cur.push(c)));
            }
        }
        i = i + 1;
    }
    let ghost old_r = views(r@);
    proof {
        assert(v@.skip(i as int).len() == 0);
    }
    if cur.len() > 0 {
        let w = cur;
        r.push(w);
        assert(views(r@) =~= old_r + seq![w@]);
    } else {
        assert(views(r@) =~= old_r + Seq::<Seq<char>>::empty());
    }
    r
}


/// Pieces of `s` separated by `c`, accumulating the current piece in `cur`.
pub open spec fn pieces_from(s: Seq<char>, c: char, cur: Seq<char>) -> Seq<Seq<char>>
    decreases s.len(),
{
    if s.len() == 0 {
        seq![cur]
    } else if s[0] == c {
        seq![cur] + pieces_from(s.drop_first(), c, seq![])
    } else {
        pieces_from(s.drop_first(), c, cur.push(s[0]))
    }
}

/// The pieces of `s` separated by `c` (std's `str::split` with a char).
pub open spec fn pieces(s: Seq<char>, c: char) -> Seq<Seq<char>> {
    pieces_from(s, c, seq![])
}

/// Executable form of [`pieces`].
pub fn split_on(v: &Vec<char>, sep: char) -> (r: Vec<Vec<char>>)
    ensures
        views(r@) == pieces(v@, sep),
{
    let mut r: Vec<Vec<char>> = Vec::new();
    let mut cur: Vec<char> = Vec::new();
    let mut i: usize = 0;
    proof {
        assert(v@.skip(0) =~= v@);
        assert(views(r@) =~= Seq::<Seq<char>>::empty());
        assert(cur@ =~= Seq::<char>::empty());
    }
    while i < v.len()
        invariant
            i <= v.len(),
            views(r@) + pieces_from(v@.skip(i as int), sep, cur@) == pieces(v@, sep),
        decreases v.len() - i,
    {
        let c = v[i];
        let ghost rest = v@.skip(i as int);
        let ghost old_r = views(r@);
        let ghost old_cur = cur@;
        proof {
            assert(rest.drop_first() =~= v@.skip(i + 1));
            assert(rest[0] == c);
        }
        if c == sep {
            let w = cur;
            cur = Vec::new();
            r.push(w);
            proof {
                assert(views(r@) =~= old_r + seq![old_cur]);
                assert(cur@ =~= Seq::<char>::empty());
                assert(old_r + (seq![old_cur] + pieces_from(v@.skip(i + 1), sep, seq![])) =~= (
                old_r + seq![old_cur]) + pieces_from(v@.skip(i + 1), sep, seq![]));
            }
        } else {
            cur.push(c);
        }
        i = i + 1;
    }
    let ghost old_r = views(r@);
    proof {
        assert(v@.skip(i as int).len() == 0);
    }
    let w = cur;
    r.push(w);
    assert(views(r@) =~= old_r + seq![w@]);
    r
}

/// The remainder of the first sequence of `ws` that begins with `p`, after `p`.
pub open spec fn first_with_prefix(ws: Seq<Seq<char>>, p: Seq<char>) -> Option<Seq<char>>
    decreases ws.len(),
{
    if ws.len() == 0 {
        None
    } else if starts_with(ws[0], p) {
        Some(ws[0].skip(p.len() as int))
    } else {
        first_with_prefix(ws.drop_first(), p)
    }
}

/// The first item of `ws` that begins with `p` gives what follows `p` in it;
/// nothing is given exactly when no item begins with `p`.
pub proof fn lemma_first_with_prefix(ws: Seq<Seq<char>>, p: Seq<char>)
    ensures
        first_with_prefix(ws, p) matches Some(v) ==> exists|k: int|
            0 <= k < ws.len() && #[trigger] ws[k] == p + v && forall|j: int|
                0 <= j < k ==> !(p.len() <= ws[j].len() && (#[trigger] ws[j]).take(p.len() as int) == p),
        first_with_prefix(ws, p) is None <==> forall|k: int|
            0 <= k < ws.len() ==> !(p.len() <= ws[k].len() && (#[trigger] ws[k]).take(p.len() as int) == p),
    decreases ws.len(),
{
    if ws.len() > 0 {
        let rest = ws.drop_first();
        lemma_first_with_prefix(rest, p);
        if starts_with(ws[0], p) {
            assert(ws[0] =~= p + ws[0].skip(p.len() as int));
        } else {
            match first_with_prefix(rest, p) {
                Some(v) => {
                    let k = choose|k: int|
                        0 <= k < rest.len() && #[trigger] rest[k] == p + v && forall|j: int|
                            0 <= j < k ==> !(p.len() <= rest[j].len() && (#[trigger] rest[j]).take(p.len() as int) == p);
                    assert(ws[k + 1] == rest[k]);
                    assert forall|j: int| 0 <= j < k + 1 implies !(p.len() <= ws[j].len() && (#[trigger] ws[j]).take(
                        p.len() as int,
                    ) == p) by {
                        if j > 0 {
                            assert(ws[j] == rest[j - 1]);
                        }
                    }
                },
                None => {
                    assert forall|k: int| 0 <= k < ws.len() implies !(p.len() <= ws[k].len() && (
                    #[trigger] ws[k]).take(p.len() as int) == p) by {
                        if k > 0 {
                            assert(ws[k] == rest[k - 1]);
                        }
                    }
                },
            }
        }
    }
}

/// Executable form of [`first_with_prefix`].
pub fn strip_first_prefix(ws: &Vec<Vec<char>>, p: &str) -> (r: Option<Vec<char>>)
    ensures
        match r {
            Some(v) => first_with_prefix(views(ws@), p@) == Some(v@),
            None => first_with_prefix(views(ws@), p@) is None,
        },
{
    let pn = p.unicode_len();
    let mut i: usize = 0;
    proof {
        assert(views(ws@).skip(0) =~= views(ws@));
    }
    while i < ws.len()
        invariant
            i <= ws.len(),
            pn == p@.len(),
            first_with_prefix(views(ws@), p@) == first_with_prefix(views(ws@).skip(i as int), p@),
        decreases ws.len() - i,
    {
        proof {
            assert(views(ws@).skip(i as int)[0] == ws@[i as int]@);
            assert(views(ws@).skip(i as int).drop_first() =~= views(ws@).skip(i + 1));
        }
        if has_prefix(&ws[i], p) {
            let rest = slice_chars(&ws[i], pn, ws[i].len());
            assert(rest@ =~= ws@[i as int]@.skip(pn as int));
            return Some(rest);
        }
        i = i + 1;
    }
    None
}

/// Whether `t` occurs in `s` at position `i`.
pub open spec fn occurs_at(s: Seq<char>, t: Seq<char>, i: int) -> bool {
    0 <= i && i + t.len() <= s.len() && s.subrange(i, i + t.len()) == t
}

/// Whether `t` occurs somewhere in `s`.
pub open spec fn contains_seq(s: Seq<char>, t: Seq<char>) -> bool {
    exists|i: int| occurs_at(s, t, i)
}

/// Executable form of [`contains_seq`].
pub fn contains_str(s: &str, t: &str) -> (b: bool)
    ensures
        b == contains_seq(s@, t@),
{
    let sv = chars_of(s);
    let tv = chars_of(t);
    if tv.len() > sv.len() {
        assert forall|i: int| !occurs_at(s@, t@, i) by {}
        return false;
    }
    let mut i: usize = 0;
    while i <= sv.len() - tv.len()
        invariant
            sv@ == s@,
            tv@ == t@,
            tv.len() <= sv.len(),
            i <= sv.len() - tv.len() + 1,
            forall|k: int| 0 <= k < i ==> !occurs_at(s@, t@, k),
        decreases sv.len() - i,
    {
        let mut j: usize = 0;
        while j < tv.len() && sv[i + j] == tv[j]
            invariant
                i + tv.len() <= sv.len(),
                j <= tv.len(),
                forall|m: int| 0 <= m < j ==> sv@[i + m] == tv@[m],
            decreases tv.len() - j,
        {
            j = j + 1;
        }
        if j == tv.len() {
            assert(s@.subrange(i as int, i + t@.len()) =~= t@);
            assert(occurs_at(s@, t@, i as int));
            return true;
        }
        assert(!occurs_at(s@, t@, i as int)) by {
            if occurs_at(s@, t@, i as int) {
                assert(s@.subrange(i as int, i + t@.len())[j as int] == t@[j as int]);
            }
        }
        i = i + 1;
    }
    assert forall|k: int| !occurs_at(s@, t@, k) by {
        if 0 <= k && k < i {
        }
    }
    false
}

/// Whether two sequences are equal after ASCII lowercasing.
pub open spec fn eq_ignore_case(a: Seq<char>, b: Seq<char>) -> bool {
    lower_all(a) == lower_all(b)
}

/// Executable form of [`eq_ignore_case`].
pub fn eq_ignore_ascii_case(a: &Vec<char>, b: &str) -> (r: bool)
    ensures
        r == eq_ignore_case(a@, b@),
{
    let bn = b.unicode_len();
    if a.len() != bn {
        assert(lower_all(a@).len() != lower_all(b@).len());
        return false;
    }
    let mut i: usize = 0;
    while i < bn
        invariant
            bn == b@.len(),
            a.len() == bn,
            i <= bn,
            forall|j: int| 0 <= j < i ==> lower(a@[j]) == lower(b@[j]),
        decreases bn - i,
    {
        if ascii_lower(a[i]) != ascii_lower(b.get_char(i)) {
            assert(lower_all(a@)[i as int] != lower_all(b@)[i as int]);
            return false;
        }
        i = i + 1;
    }
    assert(lower_all(a@) =~= lower_all(b@));
    true
}

} // verus!
