//! Character-level helpers on texts: white space, trimming, decimal numbers,
//! and conversions between strings and character vectors.
use vstd::prelude::*;
use crate::formula::{ascii_upper, to_upper};

verus! {

/// Unicode `White_Space` characters, which `char::is_whitespace` recognizes.
pub open spec fn is_white_space(c: char) -> bool {
    ||| ('\u{9}' <= c && c <= '\u{d}')
    ||| c == ' '
    ||| c == '\u{85}'
    ||| c == '\u{a0}'
    ||| c == '\u{1680}'
    ||| ('\u{2000}' <= c && c <= '\u{200a}')
    ||| c == '\u{2028}'
    ||| c == '\u{2029}'
    ||| c == '\u{202f}'
    ||| c == '\u{205f}'
    ||| c == '\u{3000}'
}

/// Returns true if the character is a Unicode white space.
pub fn is_whitespace(c: char) -> (r: bool)
    ensures
        r == is_white_space(c),
{
    ('\u{9}' <= c && c <= '\u{d}') || c == ' ' || c == '\u{85}' || c == '\u{a0}' || c == '\u{1680}'
        || ('\u{2000}' <= c && c <= '\u{200a}') || c == '\u{2028}' || c == '\u{2029}' || c
        == '\u{202f}' || c == '\u{205f}' || c == '\u{3000}'
}

pub open spec fn is_digit(c: char) -> bool {
    '0' <= c && c <= '9'
}

pub open spec fn is_ascii_alpha(c: char) -> bool {
    ('A' <= c && c <= 'Z') || ('a' <= c && c <= 'z')
}

/// The texts of the strings.
pub open spec fn strings_view(v: Seq<String>) -> Seq<Seq<char>> {
    v.map_values(|s: String| s@)
}

/// The characters of the string.
pub fn chars_of(s: &str) -> (r: Vec<char>)
    ensures
        r@ == s@,
{
    let mut r: Vec<char> = Vec::new();
    for c in it: s.chars()
        invariant
            it.seq() == s@,
            r@ == s@.take(it.index() as int),
    {
        r.push(c);
    }
    r
}


/// Appends a character to the string (`String::push`).
#[verifier::external_body]
pub fn push_char(s: &mut String, c: char)
    ensures
        final(s)@ == old(s)@.push(c),
{
    s.push(c)
}

/// The string of the characters.
pub fn string_of(v: &[char]) -> (r: String)
    ensures
        r@ == v@,
{
    let mut r = String::new();
    let mut i: usize = 0;
    while i < v.len()
        invariant
            i <= v.len(),
            r@ == v@.take(i as int),
        decreases v.len() - i,
    {
        push_char(&mut r, v[i]);
        i += 1;
        assert(r@ =~= v@.take(i as int));
    }
    assert(v@.take(v.len() as int) =~= v@);
    r
}

/// Appends all characters of `b` to `a`.
pub fn append(a: &mut Vec<char>, b: &[char])
    ensures
        final(a)@ == old(a)@ + b@,
{
    let ghost a0 = a@;
    let mut i: usize = 0;
    while i < b.len()
        invariant
            i <= b.len(),
            a@ == a0 + b@.take(i as int),
        decreases b.len() - i,
    {
        a.push(b[i]);
        i += 1;
        assert(a@ =~= a0 + b@.take(i as int));
    }
    assert(b@.take(b.len() as int) =~= b@);
}

/// Returns true if the two character sequences are equal.
pub fn chars_eq(a: &[char], b: &[char]) -> (r: bool)
    ensures
        r == (a@ == b@),
{
    if a.len() != b.len() {
        return false;
    }
    let mut i: usize = 0;
    while i < a.len()
        invariant
            i <= a.len(),
            a.len() == b.len(),
            forall|k: int| 0 <= k < i ==> a@[k] == b@[k],
        decreases a.len() - i,
    {
        if a[i] != b[i] {
            return false;
        }
        i += 1;
    }
    assert(a@ =~= b@);
    true
}

/// The index of the first character at or after `i` which is not a white space.
pub open spec fn skip_ws(s: Seq<char>, i: int) -> int
    decreases s.len() - i,
{
    if 0 <= i < s.len() && is_white_space(s[i]) {
        skip_ws(s, i + 1)
    } else {
        i
    }
}

/// The end of `s[lo..hi]` without its trailing white spaces.
pub open spec fn trim_end_at(s: Seq<char>, lo: int, hi: int) -> int
    decreases hi - lo,
{
    if lo < hi && is_white_space(s[hi - 1]) {
        trim_end_at(s, lo, hi - 1)
    } else {
        hi
    }
}

/// The text without leading and trailing white spaces (`str::trim`).
pub open spec fn trim(s: Seq<char>) -> Seq<char> {
    let a = skip_ws(s, 0);
    s.subrange(a, trim_end_at(s, a, s.len() as int))
}

/// The white spaces skipped from `i` are white spaces, and the first other
/// character stops the skipping.
pub proof fn lemma_skip_ws_bounds(s: Seq<char>, i: int)
    requires
        0 <= i <= s.len(),
    ensures
        i <= skip_ws(s, i) <= s.len(),
        forall|k: int| i <= k < skip_ws(s, i) ==> is_white_space(#[trigger] s[k]),
        skip_ws(s, i) < s.len() ==> !is_white_space(s[skip_ws(s, i)]),
    decreases s.len() - i,
{
    if i < s.len() && is_white_space(s[i]) {
        lemma_skip_ws_bounds(s, i + 1);
    }
}

/// The trailing white spaces cut from `s[lo..hi]` are white spaces, and the last
/// character kept is not one.
pub proof fn lemma_trim_end_bounds(s: Seq<char>, lo: int, hi: int)
    requires
        0 <= lo <= hi <= s.len(),
    ensures
        lo <= trim_end_at(s, lo, hi) <= hi,
        forall|k: int| trim_end_at(s, lo, hi) <= k < hi ==> is_white_space(#[trigger] s[k]),
        lo < trim_end_at(s, lo, hi) ==> !is_white_space(s[trim_end_at(s, lo, hi) - 1]),
    decreases hi - lo,
{
    if lo < hi && is_white_space(s[hi - 1]) {
        lemma_trim_end_bounds(s, lo, hi - 1);
    }
}

/// Trimming removes exactly the white spaces at both ends: the result is a part of
/// the text, everything before and after it is white space, and it neither starts
/// nor ends with a white space.
pub proof fn lemma_trim(s: Seq<char>)
    ensures
        ({
            let a = skip_ws(s, 0);
            &&& 0 <= a && a + trim(s).len() <= s.len()
            &&& trim(s) == s.subrange(a, a + trim(s).len())
            &&& forall|k: int| 0 <= k < a ==> is_white_space(#[trigger] s[k])
            &&& forall|k: int| a + trim(s).len() <= k < s.len() ==> is_white_space(#[trigger] s[k])
        }),
        trim(s).len() > 0 ==> !is_white_space(trim(s)[0]) && !is_white_space(trim(s).last()),
{
    lemma_skip_ws_bounds(s, 0);
    let a = skip_ws(s, 0);
    lemma_trim_end_bounds(s, a, s.len() as int);
    let b = trim_end_at(s, a, s.len() as int);
    assert(trim(s).len() == b - a);
    if b > a {
        assert(trim(s)[0] == s[a]);
        assert(trim(s).last() == s[b - 1]);
    }
}

/// Removes the leading and trailing white spaces.
pub fn trim_chars(s: &[char]) -> (r: Vec<char>)
    ensures
        r@ == trim(s@),
{
    let mut a: usize = 0;
    while a < s.len() && is_whitespace(s[a])
        invariant
            a <= s.len(),
            skip_ws(s@, a as int) == skip_ws(s@, 0),
        decreases s.len() - a,
    {
        a += 1;
    }
    let mut b: usize = s.len();
    while a < b && is_whitespace(s[b - 1])
        invariant
            a <= b <= s.len(),
            a == skip_ws(s@, 0),
            trim_end_at(s@, a as int, b as int) == trim_end_at(s@, a as int, s.len() as int),
        decreases b,
    {
        b -= 1;
    }
    slice_chars(s, a, b)
}

/// The characters `s[from..to]`.
pub fn slice_chars(s: &[char], from: usize, to: usize) -> (r: Vec<char>)
    requires
        from <= to <= s.len(),
    ensures
        r@ == s@.subrange(from as int, to as int),
{
    let mut r: Vec<char> = Vec::new();
    let mut i = from;
    while i < to
        invariant
            from <= i <= to <= s.len(),
            r@ == s@.subrange(from as int, i as int),
        decreases to - i,
    {
        r.push(s[i]);
        i += 1;
        assert(r@ =~= s@.subrange(from as int, i as int));
    }
    r
}

/// The decimal digit character of `d`.
pub open spec fn digit_char(d: nat) -> char {
    (48 + d) as char
}

/// The decimal notation of the number (as `u64::to_string` writes it).
pub open spec fn decimal(n: nat) -> Seq<char>
    decreases n,
{
    if n < 10 {
        seq![digit_char(n)]
    } else {
        decimal(n / 10).push(digit_char(n % 10))
    }
}

/// The decimal notation of a signed number (as `i64::to_string` writes it).
pub open spec fn signed_decimal(n: int) -> Seq<char> {
    if n < 0 {
        seq!['-'] + decimal((-n) as nat)
    } else {
        decimal(n as nat)
    }
}

fn digit(d: u64) -> (c: char)
    requires
        d < 10,
    ensures
        c == digit_char(d as nat),
{
    if d == 0 { '0' }
    else if d == 1 { '1' }
    else if d == 2 { '2' }
    else if d == 3 { '3' }
    else if d == 4 { '4' }
    else if d == 5 { '5' }
    else if d == 6 { '6' }
    else if d == 7 { '7' }
    else if d == 8 { '8' }
    else { '9' }
}

/// Writes the number in decimal.
pub fn decimal_chars(n: u64) -> (r: Vec<char>)
    ensures
        r@ == decimal(n as nat),
    decreases n,
{
    if n < 10 {
        let mut v = Vec::new();
        v.push(digit(n));
        assert(v@ =~= decimal(n as nat));
        v
    } else {
        let mut v = decimal_chars(n / 10);
        v.push(digit(n % 10));
        v
    }
}

/// Writes the signed number in decimal.
pub fn signed_decimal_chars(n: i64) -> (r: Vec<char>)
    ensures
        r@ == signed_decimal(n as int),
{
    if n < 0 {
        let m: u64 = if n == i64::MIN { 9223372036854775808u64 } else { (-n) as u64 };
        let mut v = Vec::new();
        v.push('-');
        let d = decimal_chars(m);
        append(&mut v, &d);
        v
    } else {
        decimal_chars(n as u64)
    }
}

// ---------------------------------------------------------------------------
// The order of texts.

/// The lexicographic order of texts by code points, which is the order of `String`
/// (the byte order of UTF-8 agrees with the order of code points).
pub open spec fn chars_lt(a: Seq<char>, b: Seq<char>) -> bool
    decreases a.len(),
{
    if a.len() == 0 {
        b.len() > 0
    } else if b.len() == 0 {
        false
    } else if a[0] != b[0] {
        a[0] < b[0]
    } else {
        chars_lt(a.drop_first(), b.drop_first())
    }
}

pub proof fn lemma_lt_irreflexive(a: Seq<char>)
    ensures
        !chars_lt(a, a),
    decreases a.len(),
{
    if a.len() > 0 {
        lemma_lt_irreflexive(a.drop_first());
    }
}

pub proof fn lemma_lt_transitive(a: Seq<char>, b: Seq<char>, c: Seq<char>)
    requires
        chars_lt(a, b),
        chars_lt(b, c),
    ensures
        chars_lt(a, c),
    decreases a.len(),
{
    if a.len() > 0 && b.len() > 0 && c.len() > 0 {
        if a[0] == b[0] && b[0] == c[0] {
            lemma_lt_transitive(a.drop_first(), b.drop_first(), c.drop_first());
        }
    }
}

pub proof fn lemma_lt_total(a: Seq<char>, b: Seq<char>)
    ensures
        a == b || chars_lt(a, b) || chars_lt(b, a),
    decreases a.len(),
{
    if a.len() > 0 && b.len() > 0 {
        if a[0] == b[0] {
            lemma_lt_total(a.drop_first(), b.drop_first());
            if a.drop_first() == b.drop_first() {
                assert(a =~= seq![a[0]] + a.drop_first());
                assert(b =~= seq![b[0]] + b.drop_first());
            }
        }
    } else if a.len() == 0 && b.len() == 0 {
        assert(a =~= b);
    }
}

pub proof fn lemma_lt_asymmetric(a: Seq<char>, b: Seq<char>)
    requires
        chars_lt(a, b),
    ensures
        !chars_lt(b, a),
        a != b,
{
    if chars_lt(b, a) {
        lemma_lt_transitive(a, b, a);
        lemma_lt_irreflexive(a);
    }
    if a == b {
        lemma_lt_irreflexive(a);
    }
}

/// Returns true if `a` comes before `b` in the order of texts.
pub fn chars_less(a: &[char], b: &[char]) -> (r: bool)
    ensures
        r == chars_lt(a@, b@),
{
    let mut i: usize = 0;
    assert(a@.skip(0) =~= a@);
    assert(b@.skip(0) =~= b@);
    while i < a.len() && i < b.len() && a[i] == b[i]
        invariant
            i <= a.len(),
            i <= b.len(),
            chars_lt(a@, b@) == chars_lt(a@.skip(i as int), b@.skip(i as int)),
        decreases a.len() - i,
    {
        assert(a@.skip(i as int).drop_first() =~= a@.skip(i + 1));
        assert(b@.skip(i as int).drop_first() =~= b@.skip(i + 1));
        i += 1;
    }
    if i == a.len() {
        i < b.len()
    } else if i == b.len() {
        false
    } else {
        a[i] < b[i]
    }
}

// ---------------------------------------------------------------------------
// Entries sorted by their names.

/// The names of the entries are strictly increasing.
pub open spec fn keys_sorted<V>(s: Seq<(Seq<char>, V)>) -> bool {
    forall|i: int, j: int| 0 <= i < j < s.len() ==> chars_lt(#[trigger] s[i].0, #[trigger] s[j].0)
}

/// The entries with the names as views.
pub open spec fn entries_view<V>(s: Seq<(String, V)>) -> Seq<(Seq<char>, V)> {
    s.map_values(|e: (String, V)| (e.0@, e.1))
}

/// Inserts the entry into sorted entries, replacing the entry of the same name
/// (as `BTreeMap::insert` does).
pub open spec fn sorted_insert<V>(s: Seq<(Seq<char>, V)>, k: Seq<char>, v: V) -> Seq<(Seq<char>, V)>
    decreases s.len(),
{
    if s.len() == 0 {
        seq![(k, v)]
    } else if s[0].0 == k {
        s.update(0, (k, v))
    } else if chars_lt(k, s[0].0) {
        seq![(k, v)] + s
    } else {
        seq![s[0]] + sorted_insert(s.drop_first(), k, v)
    }
}

/// The value of the name in the entries.
pub open spec fn lookup<V>(s: Seq<(Seq<char>, V)>, k: Seq<char>) -> Option<V>
    decreases s.len(),
{
    if s.len() == 0 {
        None
    } else if s[0].0 == k {
        Some(s[0].1)
    } else {
        lookup(s.drop_first(), k)
    }
}

pub proof fn lemma_sorted_insert<V>(s: Seq<(Seq<char>, V)>, k: Seq<char>, v: V)
    requires
        keys_sorted(s),
    ensures
        keys_sorted(sorted_insert(s, k, v)),
        forall|x: Seq<char>| #[trigger] lookup(sorted_insert(s, k, v), x) == if x == k {
            Some(v)
        } else {
            lookup(s, x)
        },
        forall|i: int|
            0 <= i < sorted_insert(s, k, v).len() ==> (#[trigger] sorted_insert(s, k, v)[i]).0
                == k || exists|j: int| 0 <= j < s.len() && s[j].0 == sorted_insert(s, k, v)[i].0,
    decreases s.len(),
{
    let r = sorted_insert(s, k, v);
    if s.len() == 0 {
        assert forall|x: Seq<char>| #[trigger] lookup(r, x) == if x == k {
            Some(v)
        } else {
            lookup(s, x)
        } by {
            assert(r.len() == 1);
            assert(r[0] == (k, v));
            if x != k {
                assert(r.drop_first() =~= Seq::<(Seq<char>, V)>::empty());
                assert(lookup(r.drop_first(), x) == None::<V>);
            }
        }
    } else if s[0].0 == k {
        assert forall|i: int, j: int| 0 <= i < j < r.len() implies chars_lt(
            #[trigger] r[i].0,
            #[trigger] r[j].0,
        ) by {
            assert(r[i].0 == s[i].0);
            assert(r[j].0 == s[j].0);
        }
        assert forall|x: Seq<char>| #[trigger] lookup(r, x) == if x == k {
            Some(v)
        } else {
            lookup(s, x)
        } by {
            assert(r.drop_first() =~= s.drop_first());
        }
        assert forall|i: int| 0 <= i < r.len() implies (#[trigger] r[i]).0 == k || exists|j: int|
            0 <= j < s.len() && s[j].0 == r[i].0 by {
            assert(s[i].0 == r[i].0);
        }
    } else if chars_lt(k, s[0].0) {
        assert forall|i: int, j: int| 0 <= i < j < r.len() implies chars_lt(
            #[trigger] r[i].0,
            #[trigger] r[j].0,
        ) by {
            if i == 0 {
                if j > 1 {
                    lemma_lt_transitive(k, s[0].0, s[j - 1].0);
                }
            } else {
                assert(r[i] == s[i - 1]);
                assert(r[j] == s[j - 1]);
            }
        }
        assert forall|x: Seq<char>| #[trigger] lookup(r, x) == if x == k {
            Some(v)
        } else {
            lookup(s, x)
        } by {
            assert(r.drop_first() =~= s);
        }
        assert forall|i: int| 0 <= i < r.len() implies (#[trigger] r[i]).0 == k || exists|j: int|
            0 <= j < s.len() && s[j].0 == r[i].0 by {
            if i > 0 {
                assert(s[i - 1].0 == r[i].0);
            }
        }
    } else {
        let t = s.drop_first();
        assert(keys_sorted(t)) by {
            assert forall|i: int, j: int| 0 <= i < j < t.len() implies chars_lt(
                #[trigger] t[i].0,
                #[trigger] t[j].0,
            ) by {
                assert(t[i] == s[i + 1]);
                assert(t[j] == s[j + 1]);
            }
        }
        lemma_sorted_insert(t, k, v);
        let rt = sorted_insert(t, k, v);
        assert(r == seq![s[0]] + rt);
        lemma_lt_total(k, s[0].0);
        assert forall|i: int, j: int| 0 <= i < j < r.len() implies chars_lt(
            #[trigger] r[i].0,
            #[trigger] r[j].0,
        ) by {
            if i == 0 {
                assert(r[j] == rt[j - 1]);
                if rt[j - 1].0 != k {
                    let m = choose|m: int| 0 <= m < t.len() && t[m].0 == rt[j - 1].0;
                    assert(t[m] == s[m + 1]);
                }
            } else {
                assert(r[i] == rt[i - 1]);
                assert(r[j] == rt[j - 1]);
            }
        }
        assert forall|x: Seq<char>| #[trigger] lookup(r, x) == if x == k {
            Some(v)
        } else {
            lookup(s, x)
        } by {
            assert(r.drop_first() =~= rt);
            assert(lookup(rt, x) == if x == k { Some(v) } else { lookup(t, x) });
        }
        assert forall|i: int| 0 <= i < r.len() implies (#[trigger] r[i]).0 == k || exists|j: int|
            0 <= j < s.len() && s[j].0 == r[i].0 by {
            if i > 0 {
                assert(r[i] == rt[i - 1]);
                if rt[i - 1].0 != k {
                    let m = choose|m: int| 0 <= m < t.len() && t[m].0 == rt[i - 1].0;
                    assert(s[m + 1].0 == r[i].0);
                }
            } else {
                assert(s[0].0 == r[0].0);
            }
        }
    }
}

/// In entries with distinct names, the value of the name of an entry is its value.
pub proof fn lemma_lookup_index<V>(s: Seq<(Seq<char>, V)>, j: int)
    requires
        keys_sorted(s),
        0 <= j < s.len(),
    ensures
        lookup(s, s[j].0) == Some(s[j].1),
    decreases j,
{
    if j > 0 {
        let t = s.drop_first();
        assert(keys_sorted(t)) by {
            assert forall|a: int, b: int| 0 <= a < b < t.len() implies chars_lt(
                #[trigger] t[a].0,
                #[trigger] t[b].0,
            ) by {
                assert(t[a] == s[a + 1] && t[b] == s[b + 1]);
            }
        }
        lemma_lt_asymmetric(s[0].0, s[j].0);
        lemma_lookup_index(t, j - 1);
        assert(t[j - 1] == s[j]);
    }
}

/// The value of a name in the entries is the value of an entry of the name.
pub proof fn lemma_lookup_some<V>(s: Seq<(Seq<char>, V)>, k: Seq<char>)
    ensures
        lookup(s, k) matches Some(v) ==> exists|j: int|
            0 <= j < s.len() && #[trigger] s[j].0 == k && s[j].1 == v,
    decreases s.len(),
{
    if s.len() > 0 && s[0].0 != k {
        lemma_lookup_some(s.drop_first(), k);
        if let Some(v) = lookup(s, k) {
            let j = choose|j: int|
                0 <= j < s.drop_first().len() && #[trigger] s.drop_first()[j].0 == k
                    && s.drop_first()[j].1 == v;
            assert(s[j + 1] == s.drop_first()[j]);
        }
    }
}

/// The entries with the values as views.
pub open spec fn values_view<V: View>(s: Seq<(Seq<char>, V)>) -> Seq<(Seq<char>, V::V)> {
    s.map_values(|e: (Seq<char>, V)| (e.0, e.1@))
}

/// Inserting an entry commutes with viewing the values.
pub proof fn lemma_values_view_insert<V: View>(s: Seq<(Seq<char>, V)>, k: Seq<char>, v: V)
    ensures
        values_view(sorted_insert(s, k, v)) == sorted_insert(values_view(s), k, v@),
    decreases s.len(),
{
    let vs = values_view(s);
    if s.len() == 0 {
        assert(values_view(sorted_insert(s, k, v)) =~= seq![(k, v@)]);
    } else if s[0].0 == k {
        assert(values_view(sorted_insert(s, k, v)) =~= vs.update(0, (k, v@)));
    } else if chars_lt(k, s[0].0) {
        assert(values_view(sorted_insert(s, k, v)) =~= seq![(k, v@)] + vs);
    } else {
        lemma_values_view_insert(s.drop_first(), k, v);
        assert(values_view(s.drop_first()) =~= vs.drop_first());
        assert(values_view(sorted_insert(s, k, v)) =~= seq![vs[0]] + sorted_insert(
            vs.drop_first(),
            k,
            v@,
        ));
    }
}

/// Looking up a name commutes with viewing the values.
pub proof fn lemma_values_view_lookup<V: View>(s: Seq<(Seq<char>, V)>, k: Seq<char>)
    ensures
        match lookup(s, k) {
            Some(v) => lookup(values_view(s), k) == Some(v@),
            None => lookup(values_view(s), k) is None,
        },
    decreases s.len(),
{
    if s.len() > 0 && s[0].0 != k {
        lemma_values_view_lookup(s.drop_first(), k);
        assert(values_view(s.drop_first()) =~= values_view(s).drop_first());
    }
}

/// Returns the index of the entry of the name.
pub fn find_entry<V>(entries: &Vec<(String, V)>, key: &[char]) -> (r: Option<usize>)
    ensures
        match r {
            Some(i) => i < entries.len() && lookup(entries_view(entries@), key@) == Some(
                entries@[i as int].1,
            ),
            None => lookup(entries_view(entries@), key@) is None,
        },
{
    let ghost s = entries_view(entries@);
    let mut i: usize = 0;
    assert(s.skip(0) =~= s);
    while i < entries.len()
        invariant
            i <= entries.len(),
            s == entries_view(entries@),
            lookup(s, key@) == lookup(s.skip(i as int), key@),
        decreases entries.len() - i,
    {
        assert(s.skip(i as int).drop_first() =~= s.skip(i + 1));
        assert(s[i as int].0 == entries@[i as int].0@);
        if chars_eq(&chars_of(entries[i].0.as_str()), key) {
            return Some(i);
        }
        i += 1;
    }
    None
}

/// Inserts the entry into the entries sorted by names, replacing the entry of the
/// same name.
pub fn insert_sorted<V>(entries: &mut Vec<(String, V)>, key: String, value: V)
    requires
        keys_sorted(entries_view(old(entries)@)),
    ensures
        entries_view(final(entries)@) == sorted_insert(entries_view(old(entries)@), key@, value),
        keys_sorted(entries_view(final(entries)@)),
{
    proof {
        lemma_sorted_insert(entries_view(entries@), key@, value);
    }
    let ghost s = entries_view(entries@);
    let kc = chars_of(key.as_str());
    let mut p: usize = 0;
    assert(s.skip(0) =~= s);
    assert(s.take(0) + sorted_insert(s, key@, value) =~= sorted_insert(s, key@, value));
    while p < entries.len()
        invariant
            p <= entries.len(),
            s == entries_view(entries@),
            s == entries_view(old(entries)@),
            keys_sorted(sorted_insert(s, key@, value)),
            kc@ == key@,
            sorted_insert(s, key@, value) == s.take(p as int) + sorted_insert(
                s.skip(p as int),
                key@,
                value,
            ),
        decreases entries.len() - p,
    {
        let name = chars_of(entries[p].0.as_str());
        assert(s[p as int].0 == entries@[p as int].0@);
        assert(s.skip(p as int)[0] == s[p as int]);
        if chars_eq(&name, &kc) {
            assert(sorted_insert(s.skip(p as int), key@, value) == s.skip(p as int).update(0, (key@, value)));
            entries.set(p, (key, value));
            assert(entries_view(entries@) =~= s.take(p as int) + s.skip(p as int).update(0, (key@, value)));
            return;
        }
        if chars_less(&kc, &name) {
            assert(sorted_insert(s.skip(p as int), key@, value) == seq![(key@, value)] + s.skip(p as int));
            entries.insert(p, (key, value));
            assert(entries_view(entries@) =~= s.take(p as int) + (seq![(key@, value)] + s.skip(p as int)));
            return;
        }
        assert(s.skip(p as int).drop_first() =~= s.skip(p + 1));
        assert(s.take(p + 1) =~= s.take(p as int).push(s[p as int]));
        assert(s.take(p as int) + (seq![s[p as int]] + sorted_insert(s.skip(p + 1), key@, value))
            =~= s.take(p + 1) + sorted_insert(s.skip(p + 1), key@, value));
        p += 1;
    }
    entries.push((key, value));
    assert(s.skip(p as int) =~= Seq::<(Seq<char>, V)>::empty());
    assert(s.take(p as int) =~= s);
    assert(entries_view(entries@) =~= s.push((key@, value)));
    assert(sorted_insert(s.skip(p as int), key@, value) =~= seq![(key@, value)]);
    assert(entries_view(entries@) =~= sorted_insert(s, key@, value));
}

/// Returns true if the two texts are equal.
pub fn str_eq(a: &str, b: &str) -> (r: bool)
    ensures
        r == (a@ == b@),
{
    chars_eq(&chars_of(a), &chars_of(b))
}

// ---------------------------------------------------------------------------
// Decimal floating-point literals.

/// The first position from `i` of the character `a` or `b`, or the length.
pub open spec fn pos_of(s: Seq<char>, i: int, a: char, b: char) -> int
    decreases s.len() - i,
{
    if i >= s.len() {
        s.len() as int
    } else if s[i] == a || s[i] == b {
        i
    } else {
        pos_of(s, i + 1, a, b)
    }
}

pub open spec fn only_digits(s: Seq<char>) -> bool {
    forall|i: int| 0 <= i < s.len() ==> is_digit(#[trigger] s[i])
}

/// `Digit+ | Digit+ '.' Digit* | Digit* '.' Digit+`.
pub open spec fn is_mantissa(t: Seq<char>) -> bool {
    let d = pos_of(t, 0, '.', '.');
    if d == t.len() {
        t.len() > 0 && only_digits(t)
    } else {
        t.len() > 1 && only_digits(t.take(d)) && only_digits(t.skip(d + 1))
    }
}

/// `('e' | 'E') Sign? Digit+`.
pub open spec fn is_exponent(x: Seq<char>) -> bool {
    x.len() >= 2 && (x[0] == 'e' || x[0] == 'E') && {
        let digits = if x[1] == '+' || x[1] == '-' {
            x.skip(2)
        } else {
            x.skip(1)
        };
        digits.len() > 0 && only_digits(digits)
    }
}

/// A mantissa with an optional exponent.
pub open spec fn is_number(s: Seq<char>) -> bool {
    let p = pos_of(s, 0, 'e', 'E');
    is_mantissa(s.take(p)) && (p == s.len() || is_exponent(s.skip(p)))
}

/// The text is accepted by `f64::from_str`, whose grammar the documentation gives:
/// `Sign? ('inf' | 'infinity' | 'nan' | Number)`, case-insensitively.
pub open spec fn is_float_text(s: Seq<char>) -> bool {
    let body = if s.len() > 0 && (s[0] == '+' || s[0] == '-') {
        s.skip(1)
    } else {
        s
    };
    let upper = ascii_upper(body);
    upper == "INF"@ || upper == "INFINITY"@ || upper == "NAN"@ || is_number(body)
}

fn find_char(s: &[char], i: usize, a: char, b: char) -> (r: usize)
    requires
        i <= s.len(),
    ensures
        r == pos_of(s@, i as int, a, b),
        i <= r <= s.len(),
{
    let mut k = i;
    while k < s.len() && s[k] != a && s[k] != b
        invariant
            i <= k <= s.len(),
            pos_of(s@, i as int, a, b) == pos_of(s@, k as int, a, b),
        decreases s.len() - k,
    {
        k += 1;
    }
    k
}

fn digits_only(s: &[char]) -> (r: bool)
    ensures
        r == only_digits(s@),
{
    let mut i: usize = 0;
    while i < s.len()
        invariant
            i <= s.len(),
            forall|k: int| 0 <= k < i ==> is_digit(#[trigger] s@[k]),
        decreases s.len() - i,
    {
        if !('0' <= s[i] && s[i] <= '9') {
            return false;
        }
        i += 1;
    }
    true
}

fn is_mantissa_chars(t: &[char]) -> (r: bool)
    ensures
        r == is_mantissa(t@),
{
    let d = find_char(t, 0, '.', '.');
    if d == t.len() {
        t.len() > 0 && digits_only(t)
    } else {
        t.len() > 1 && digits_only(&slice_chars(t, 0, d)) && digits_only(&slice_chars(t, d + 1, t.len()))
    }
}

fn is_exponent_chars(x: &[char]) -> (r: bool)
    ensures
        r == is_exponent(x@),
{
    if x.len() < 2 || !(x[0] == 'e' || x[0] == 'E') {
        return false;
    }
    let from: usize = if x[1] == '+' || x[1] == '-' { 2 } else { 1 };
    let digits = slice_chars(x, from, x.len());
    assert(digits@ =~= x@.skip(from as int));
    digits.len() > 0 && digits_only(&digits)
}

/// Returns true if `f64::from_str` accepts the text.
pub fn is_float_chars(s: &[char]) -> (r: bool)
    ensures
        r == is_float_text(s@),
{
    let body = if s.len() > 0 && (s[0] == '+' || s[0] == '-') {
        slice_chars(s, 1, s.len())
    } else {
        slice_chars(s, 0, s.len())
    };
    assert(body@ =~= (if s@.len() > 0 && (s@[0] == '+' || s@[0] == '-') {
        s@.skip(1)
    } else {
        s@
    }));
    let upper = to_upper(&body);
    if chars_eq(&upper, &chars_of("INF")) || chars_eq(&upper, &chars_of("INFINITY")) || chars_eq(
        &upper,
        &chars_of("NAN"),
    ) {
        return true;
    }
    let p = find_char(&body, 0, 'e', 'E');
    let mantissa = slice_chars(&body, 0, p);
    assert(mantissa@ =~= body@.take(p as int));
    if !is_mantissa_chars(&mantissa) {
        return false;
    }
    if p == body.len() {
        return true;
    }
    let exponent = slice_chars(&body, p, body.len());
    assert(exponent@ =~= body@.skip(p as int));
    is_exponent_chars(&exponent)
}

} // verus!
