//! Character-level text operations on the views of `str` and `String`.
//!
//! Every operation here is stated over `Seq<char>` and proved; only the
//! appending of a single `char` to a `String` is taken from std.

use vstd::prelude::*;
use vstd::string::StrSliceExecFns;
use vstd::string::StringExecFns;

verus! {

/// `String::push`: appends the character `c` at the end of `s`.
#[verifier::external_body]
fn string_push(s: &mut String, c: char)
    ensures
        final(s)@ == old(s)@.push(c),
{
    s.push(c);
}

/// The characters of `s`, in order.
pub fn chars_of(s: &str) -> (v: Vec<char>)
    ensures
        v@ == s@,
{
    let n = s.unicode_len();
    let mut v: Vec<char> = Vec::new();
    let mut i: usize = 0;
    while i < n
        invariant
            n == s@.len(),
            i <= n,
            v@ == s@.subrange(0, i as int),
        decreases n - i,
    {
        let c = s.get_char(i);
        v.push(c);
        i += 1;
        assert(v@ =~= s@.subrange(0, i as int));
    }
    assert(v@ =~= s@);
    v
}

/// The `String` holding the characters of `v`, in order.
pub fn string_of(v: &[char]) -> (s: String)
    ensures
        s@ == v@,
{
    let mut s = String::new();
    let mut i: usize = 0;
    while i < v.len()
        invariant
            i <= v@.len(),
            s@ == v@.subrange(0, i as int),
        decreases v@.len() - i,
    {
        string_push(&mut s, v[i]);
        i += 1;
        assert(s@ =~= v@.subrange(0, i as int));
    }
    assert(s@ =~= v@);
    s
}

/// The characters of `v` from `from` up to `to`, as a `String`.
pub fn string_of_range(v: &[char], from: usize, to: usize) -> (s: String)
    requires
        from <= to <= v@.len(),
    ensures
        s@ == v@.subrange(from as int, to as int),
{
    let mut s = String::new();
    let mut i: usize = from;
    while i < to
        invariant
            from <= i <= to <= v@.len(),
            s@ == v@.subrange(from as int, i as int),
        decreases to - i,
    {
        string_push(&mut s, v[i]);
        i += 1;
        assert(s@ =~= v@.subrange(from as int, i as int));
    }
    s
}

/// Unicode `White_Space`, the set that `char::is_whitespace` documents.
pub open spec fn is_ws(c: char) -> bool {
    let u = c as u32;
    ||| 0x09 <= u <= 0x0D
    ||| u == 0x20
    ||| u == 0x85
    ||| u == 0xA0
    ||| u == 0x1680
    ||| 0x2000 <= u <= 0x200A
    ||| u == 0x2028
    ||| u == 0x2029
    ||| u == 0x202F
    ||| u == 0x205F
    ||| u == 0x3000
}

/// Whether `c` is Unicode white space.
pub fn char_is_whitespace(c: char) -> (r: bool)
    ensures
        r == is_ws(c),
{
    let u = c as u32;
    (0x09 <= u && u <= 0x0D) || u == 0x20 || u == 0x85 || u == 0xA0 || u == 0x1680 || (0x2000
        <= u && u <= 0x200A) || u == 0x2028 || u == 0x2029 || u == 0x202F || u == 0x205F || u
        == 0x3000
}

/// ASCII letters and digits.
pub open spec fn is_ascii_alnum(c: char) -> bool {
    ('a' <= c <= 'z') || ('A' <= c <= 'Z') || ('0' <= c <= '9')
}

/// The ASCII lowercase of one character; every other character is kept.
pub open spec fn ascii_lower(c: char) -> char {
    if 'A' <= c <= 'Z' {
        ((c as u32) + 32) as char
    } else {
        c
    }
}

/// The ASCII uppercase of one character; every other character is kept.
pub open spec fn ascii_upper(c: char) -> char {
    if 'a' <= c <= 'z' {
        ((c as u32) - 32) as char
    } else {
        c
    }
}

/// `str::to_ascii_lowercase` over a sequence of characters.
pub open spec fn ascii_lower_seq(s: Seq<char>) -> Seq<char> {
    s.map_values(|c: char| ascii_lower(c))
}

/// `str::to_ascii_uppercase` over a sequence of characters.
pub open spec fn ascii_upper_seq(s: Seq<char>) -> Seq<char> {
    s.map_values(|c: char| ascii_upper(c))
}

fn char_ascii_lower(c: char) -> (r: char)
    ensures
        r == ascii_lower(c),
{
    if 'A' <= c && c <= 'Z' {
        let u = (c as u32) + 32;
        assert(0x61 <= u <= 0x7A);
        char_from_ascii(u)
    } else {
        c
    }
}

fn char_ascii_upper(c: char) -> (r: char)
    ensures
        r == ascii_upper(c),
{
    if 'a' <= c && c <= 'z' {
        let u = (c as u32) - 32;
        assert(0x41 <= u <= 0x5A);
        char_from_ascii(u)
    } else {
        c
    }
}

/// The character with the ASCII code `u`.
fn char_from_ascii(u: u32) -> (c: char)
    requires
        u < 0x80,
    ensures
        c == u as char,
        c as u32 == u,
{
    let b = u as u8;
    b as char
}

/// `s` with every ASCII uppercase letter made lowercase.
pub fn to_ascii_lowercase(s: &str) -> (r: String)
    ensures
        r@ == ascii_lower_seq(s@),
{
    let v = chars_of(s);
    let mut out: Vec<char> = Vec::new();
    let mut i: usize = 0;
    while i < v.len()
        invariant
            i <= v@.len(),
            v@ == s@,
            out@ == ascii_lower_seq(v@.subrange(0, i as int)),
        decreases v@.len() - i,
    {
        out.push(char_ascii_lower(v[i]));
        i += 1;
        assert(out@ =~= ascii_lower_seq(v@.subrange(0, i as int)));
    }
    assert(v@.subrange(0, v@.len() as int) =~= v@);
    string_of(&out)
}

/// `s` with every ASCII lowercase letter made uppercase.
pub fn to_ascii_uppercase(s: &str) -> (r: String)
    ensures
        r@ == ascii_upper_seq(s@),
{
    let v = chars_of(s);
    let mut out: Vec<char> = Vec::new();
    let mut i: usize = 0;
    while i < v.len()
        invariant
            i <= v@.len(),
            v@ == s@,
            out@ == ascii_upper_seq(v@.subrange(0, i as int)),
        decreases v@.len() - i,
    {
        out.push(char_ascii_upper(v[i]));
        i += 1;
        assert(out@ =~= ascii_upper_seq(v@.subrange(0, i as int)));
    }
    assert(v@.subrange(0, v@.len() as int) =~= v@);
    string_of(&out)
}


/// The first index at or after `i` whose character does not satisfy `p`
/// (or the length of `s`).
pub open spec fn skip_fwd(s: Seq<char>, p: spec_fn(char) -> bool, i: int) -> int
    decreases s.len() - i,
{
    if 0 <= i < s.len() && p(s[i]) {
        skip_fwd(s, p, i + 1)
    } else {
        i
    }
}

/// Going down from `j`, not below `lo`, the end of the last character that
/// does not satisfy `p` (or `lo`).
pub open spec fn skip_back(s: Seq<char>, p: spec_fn(char) -> bool, lo: int, j: int) -> int
    decreases j - lo,
{
    if lo < j && j <= s.len() && p(s[j - 1]) {
        skip_back(s, p, lo, j - 1)
    } else {
        j
    }
}

/// `s` without its leading and trailing characters that satisfy `p`
/// (`str::trim_matches` with a predicate).
pub open spec fn trim_by(s: Seq<char>, p: spec_fn(char) -> bool) -> Seq<char> {
    let a = skip_fwd(s, p, 0);
    s.subrange(a, skip_back(s, p, a, s.len() as int))
}

/// `str::trim`: `s` without leading and trailing white space.
pub open spec fn trim_ws(s: Seq<char>) -> Seq<char> {
    trim_by(s, |c: char| is_ws(c))
}

pub proof fn lemma_skip_fwd_bounds(s: Seq<char>, p: spec_fn(char) -> bool, i: int)
    requires
        0 <= i <= s.len(),
    ensures
        i <= skip_fwd(s, p, i) <= s.len(),
        forall|k: int| i <= k < skip_fwd(s, p, i) ==> p(#[trigger] s[k]),
        skip_fwd(s, p, i) < s.len() ==> !p(s[skip_fwd(s, p, i)]),
    decreases s.len() - i,
{
    if i < s.len() && p(s[i]) {
        lemma_skip_fwd_bounds(s, p, i + 1);
    }
}

pub proof fn lemma_skip_back_bounds(s: Seq<char>, p: spec_fn(char) -> bool, lo: int, j: int)
    requires
        0 <= lo <= j <= s.len(),
    ensures
        lo <= skip_back(s, p, lo, j) <= j,
        forall|k: int| skip_back(s, p, lo, j) <= k < j ==> p(#[trigger] s[k]),
        lo < skip_back(s, p, lo, j) ==> !p(s[skip_back(s, p, lo, j) - 1]),
    decreases j - lo,
{
    if lo < j && p(s[j - 1]) {
        lemma_skip_back_bounds(s, p, lo, j - 1);
    }
}

/// The bounds `(a, b)` of `trim_by(v, p)` inside `v`, given `mask[i] == p(v[i])`.
fn trim_bounds(v: &[char], mask: &[bool], Ghost(p): Ghost<spec_fn(char) -> bool>) -> (r: (
    usize,
    usize,
))
    requires
        mask@.len() == v@.len(),
        forall|k: int| 0 <= k < v@.len() ==> mask@[k] == p(#[trigger] v@[k]),
    ensures
        r.0 == skip_fwd(v@, p, 0),
        r.1 == skip_back(v@, p, r.0 as int, v@.len() as int),
        r.0 <= r.1 <= v@.len(),
{
    let n = v.len();
    let mut a: usize = 0;
    while a < n && mask[a]
        invariant
            n == v@.len(),
            mask@.len() == n,
            forall|k: int| 0 <= k < v@.len() ==> mask@[k] == p(#[trigger] v@[k]),
            a <= n,
            skip_fwd(v@, p, 0) == skip_fwd(v@, p, a as int),
        decreases n - a,
    {
        a += 1;
    }
    let mut b: usize = n;
    while b > a && mask[b - 1]
        invariant
            n == v@.len(),
            mask@.len() == n,
            forall|k: int| 0 <= k < v@.len() ==> mask@[k] == p(#[trigger] v@[k]),
            a <= b <= n,
            skip_back(v@, p, a as int, n as int) == skip_back(v@, p, a as int, b as int),
        decreases b - a,
    {
        b -= 1;
    }
    (a, b)
}

/// `str::trim`: `s` without leading and trailing Unicode white space.
pub fn trim(s: &str) -> (r: String)
    ensures
        r@ == trim_ws(s@),
{
    let v = chars_of(s);
    let mut mask: Vec<bool> = Vec::new();
    let mut i: usize = 0;
    while i < v.len()
        invariant
            i <= v@.len(),
            mask@.len() == i,
            forall|k: int| 0 <= k < i ==> mask@[k] == is_ws(#[trigger] v@[k]),
        decreases v@.len() - i,
    {
        mask.push(char_is_whitespace(v[i]));
        i += 1;
    }
    let ghost p = |c: char| is_ws(c);
    let (a, b) = trim_bounds(&v, &mask, Ghost(p));
    string_of_range(&v, a, b)
}

/// `str::trim_matches(c)`: `s` without leading and trailing copies of `c`.
pub fn trim_char(s: &str, c: char) -> (r: String)
    ensures
        r@ == trim_by(s@, |x: char| x == c),
{
    let v = chars_of(s);
    let mut mask: Vec<bool> = Vec::new();
    let mut i: usize = 0;
    while i < v.len()
        invariant
            i <= v@.len(),
            mask@.len() == i,
            forall|k: int| 0 <= k < i ==> mask@[k] == (#[trigger] v@[k] == c),
        decreases v@.len() - i,
    {
        mask.push(v[i] == c);
        i += 1;
    }
    let ghost p = |x: char| x == c;
    let (a, b) = trim_bounds(&v, &mask, Ghost(p));
    string_of_range(&v, a, b)
}


/// `n` occurs in `h` starting at index `i`.
pub open spec fn occurs_at(h: Seq<char>, n: Seq<char>, i: int) -> bool {
    0 <= i && i + n.len() <= h.len() && h.subrange(i, i + n.len()) == n
}

/// `str::contains` with a string pattern.
pub open spec fn contains_seq(h: Seq<char>, n: Seq<char>) -> bool {
    exists|i: int| occurs_at(h, n, i)
}

/// The first index at or after `i` where `n` occurs in `h`.
pub open spec fn find_from(h: Seq<char>, n: Seq<char>, i: int) -> Option<int>
    decreases h.len() + 1 - i,
{
    if i < 0 || i + n.len() > h.len() {
        None
    } else if occurs_at(h, n, i) {
        Some(i)
    } else {
        find_from(h, n, i + 1)
    }
}

/// `str::starts_with`.
pub open spec fn starts_with(h: Seq<char>, n: Seq<char>) -> bool {
    occurs_at(h, n, 0)
}

/// `str::ends_with`.
pub open spec fn ends_with(h: Seq<char>, n: Seq<char>) -> bool {
    n.len() <= h.len() && occurs_at(h, n, h.len() - n.len())
}

pub proof fn lemma_find_from(h: Seq<char>, n: Seq<char>, i: int)
    requires
        0 <= i,
    ensures
        find_from(h, n, i) matches Some(k) ==> i <= k && occurs_at(h, n, k) && forall|j: int|
            i <= j < k ==> !occurs_at(h, n, j),
        find_from(h, n, i) is None ==> forall|j: int| i <= j ==> !occurs_at(h, n, j),
    decreases h.len() + 1 - i,
{
    if i + n.len() > h.len() {
    } else if occurs_at(h, n, i) {
    } else {
        lemma_find_from(h, n, i + 1);
    }
}

/// `find_from(h, n, 0)` is `Some` exactly when `n` occurs in `h`.
pub proof fn lemma_find_contains(h: Seq<char>, n: Seq<char>)
    ensures
        find_from(h, n, 0) is Some <==> contains_seq(h, n),
{
    lemma_find_from(h, n, 0);
    if let Some(k) = find_from(h, n, 0) {
        assert(occurs_at(h, n, k));
    }
}

/// Whether `n` occurs in `h` at index `i`.
pub fn matches_at(h: &[char], n: &[char], i: usize) -> (r: bool)
    ensures
        r == occurs_at(h@, n@, i as int),
{
    if i > h.len() || n.len() > h.len() - i {
        return false;
    }
    let mut k: usize = 0;
    while k < n.len()
        invariant
            i + n@.len() <= h@.len(),
            h@.len() <= usize::MAX,
            k <= n@.len(),
            forall|j: int| 0 <= j < k ==> h@[i + j] == n@[j],
        decreases n@.len() - k,
    {
        if h[i + k] != n[k] {
            assert(h@.subrange(i as int, i + n@.len())[k as int] != n@[k as int]);
            return false;
        }
        k += 1;
    }
    assert(h@.subrange(i as int, i + n@.len()) =~= n@);
    true
}

/// The first index where `n` occurs in `h` (`str::find`).
pub fn find_seq(h: &[char], n: &[char]) -> (r: Option<usize>)
    ensures
        r matches Some(k) ==> find_from(h@, n@, 0) == Some(k as int),
        r is None ==> find_from(h@, n@, 0) is None,
{
    if n.len() > h.len() {
        return None;
    }
    let last = h.len() - n.len();
    let mut i: usize = 0;
    while i <= last
        invariant
            last + n@.len() == h@.len(),
            i <= last + 1,
            find_from(h@, n@, 0) == find_from(h@, n@, i as int),
        decreases last + 1 - i,
    {
        if matches_at(h, n, i) {
            return Some(i);
        }
        if i == last {
            assert(find_from(h@, n@, i + 1) is None);
            return None;
        }
        i += 1;
    }
    None
}

/// Whether `n` occurs in `h` (`str::contains`).
pub fn contains(h: &[char], n: &[char]) -> (r: bool)
    ensures
        r == contains_seq(h@, n@),
{
    proof {
        lemma_find_contains(h@, n@);
    }
    find_seq(h, n).is_some()
}

/// Whether `h` begins with `n`.
pub fn has_prefix(h: &[char], n: &[char]) -> (r: bool)
    ensures
        r == starts_with(h@, n@),
{
    matches_at(h, n, 0)
}

/// Whether `h` ends with `n`.
pub fn has_suffix(h: &[char], n: &[char]) -> (r: bool)
    ensures
        r == ends_with(h@, n@),
{
    if n.len() > h.len() {
        false
    } else {
        matches_at(h, n, h.len() - n.len())
    }
}

/// Whether the character `c` occurs in `h`.
pub fn has_char(h: &[char], c: char) -> (r: bool)
    ensures
        r == h@.contains(c),
{
    let mut i: usize = 0;
    while i < h.len()
        invariant
            i <= h@.len(),
            forall|j: int| 0 <= j < i ==> h@[j] != c,
        decreases h@.len() - i,
    {
        if h[i] == c {
            assert(h@[i as int] == c);
            return true;
        }
        i += 1;
    }
    false
}

/// Whether two character sequences are equal.
pub fn chars_equal(a: &[char], b: &[char]) -> (r: bool)
    ensures
        r == (a@ == b@),
{
    if a.len() != b.len() {
        return false;
    }
    let r = matches_at(a, b, 0);
    proof {
        if r {
            assert(a@.subrange(0, b@.len() as int) =~= a@);
        } else {
            assert(a@.subrange(0, b@.len() as int) =~= a@);
        }
    }
    r
}


/// The last index of `c` in `s`.
pub open spec fn rfind_char_spec(s: Seq<char>, c: char) -> Option<int>
    decreases s.len(),
{
    if s.len() == 0 {
        None
    } else if s.last() == c {
        Some(s.len() - 1)
    } else {
        rfind_char_spec(s.drop_last(), c)
    }
}

proof fn lemma_rfind_char(s: Seq<char>, c: char, j: int)
    requires
        0 <= j <= s.len(),
        forall|k: int| j <= k < s.len() ==> s[k] != c,
    ensures
        rfind_char_spec(s, c) == rfind_char_spec(s.subrange(0, j), c),
    decreases s.len() - j,
{
    if j < s.len() {
        assert(s.drop_last() =~= s.subrange(0, s.len() - 1));
        lemma_rfind_char(s.drop_last(), c, j);
        assert(s.drop_last().subrange(0, j) =~= s.subrange(0, j));
    } else {
        assert(s.subrange(0, j) =~= s);
    }
}

/// The last index of `c` among the first `upto` characters of `v` (`str::rfind`).
pub fn rfind_char(v: &[char], upto: usize, c: char) -> (r: Option<usize>)
    requires
        upto <= v@.len(),
    ensures
        match rfind_char_spec(v@.subrange(0, upto as int), c) {
            Some(k) => r == Some(k as usize),
            None => r is None,
        },
{
    let mut j = upto;
    while j > 0
        invariant
            j <= upto <= v@.len(),
            forall|k: int| j <= k < upto ==> v@[k] != c,
        decreases j,
    {
        if v[j - 1] == c {
            proof {
                let s = v@.subrange(0, upto as int);
                lemma_rfind_char(s, c, j as int);
                assert(s.subrange(0, j as int).last() == c);
            }
            return Some(j - 1);
        }
        j -= 1;
    }
    proof {
        let s = v@.subrange(0, upto as int);
        lemma_rfind_char(s, c, 0);
    }
    None
}

/// The texts of a sequence of `String`s.
pub open spec fn texts(v: Seq<String>) -> Seq<Seq<char>> {
    v.map_values(|x: String| x@)
}

/// Whether `s` is among the texts of `v`.
pub fn contains_string(v: &Vec<String>, s: &String) -> (r: bool)
    ensures
        r == texts(v@).contains(s@),
{
    let mut i: usize = 0;
    while i < v.len()
        invariant
            i <= v@.len(),
            forall|k: int| 0 <= k < i ==> v@[k]@ != s@,
        decreases v@.len() - i,
    {
        if v[i] == *s {
            assert(texts(v@)[i as int] == s@);
            return true;
        }
        i += 1;
    }
    proof {
        if texts(v@).contains(s@) {
            let k = choose|k: int| 0 <= k < texts(v@).len() && texts(v@)[k] == s@;
            assert(v@[k]@ == s@);
        }
    }
    false
}

/// Whether a text is non-empty once trimmed.
pub fn trimmed_non_empty(s: &str) -> (r: Option<String>)
    ensures
        trim_ws(s@).len() > 0 ==> (r matches Some(t) && t@ == trim_ws(s@)),
        trim_ws(s@).len() == 0 ==> r is None,
{
    let t = trim(s);
    if t.as_str().is_empty() {
        None
    } else {
        Some(t)
    }
}


/// The text that `str::to_lowercase` gives for `s` (Unicode lowercase mapping).
pub uninterp spec fn unicode_lowercase(s: Seq<char>) -> Seq<char>;

/// `str::to_lowercase`: the Unicode lowercase of `s`.
#[verifier::external_body]
pub(crate) fn to_lowercase(s: &str) -> (r: String)
    ensures
        r@ == unicode_lowercase(s@),
{
    s.to_lowercase()
}

/// `a` comes before `b` in lexicographic order (the order of `[u8]` and, on
/// their UTF-8 bytes, of `str`).
pub open spec fn lex_lt(a: Seq<u8>, b: Seq<u8>) -> bool
    decreases a.len(),
{
    if b.len() == 0 {
        false
    } else if a.len() == 0 {
        true
    } else if a[0] != b[0] {
        a[0] < b[0]
    } else {
        lex_lt(a.drop_first(), b.drop_first())
    }
}

/// Lexicographic order is a strict total order.
pub proof fn lemma_lex_order(a: Seq<u8>, b: Seq<u8>, c: Seq<u8>)
    ensures
        !lex_lt(a, a),
        a != b ==> lex_lt(a, b) || lex_lt(b, a),
        lex_lt(a, b) ==> !lex_lt(b, a),
        lex_lt(a, b) && lex_lt(b, c) ==> lex_lt(a, c),
    decreases a.len(),
{
    if a.len() > 0 && b.len() > 0 && c.len() > 0 {
        lemma_lex_order(a.drop_first(), b.drop_first(), c.drop_first());
    } else if a.len() > 0 && b.len() > 0 {
        lemma_lex_order(a.drop_first(), b.drop_first(), c);
    } else if a.len() > 0 {
        lemma_lex_order(a.drop_first(), a.drop_first(), a.drop_first());
    }
    if a != b && a.len() > 0 && b.len() > 0 && a[0] == b[0] {
        assert(a.drop_first() != b.drop_first()) by {
            if a.drop_first() == b.drop_first() {
                assert(a =~= seq![a[0]] + a.drop_first());
                assert(b =~= seq![b[0]] + b.drop_first());
            }
        }
    }
    if a != b && a.len() == 0 && b.len() == 0 {
        assert(a =~= b);
    }
}

/// Whether `a` comes before `b` in lexicographic order.
pub fn bytes_lt(a: &[u8], b: &[u8]) -> (r: bool)
    ensures
        r == lex_lt(a@, b@),
{
    let mut i: usize = 0;
    assert(a@.skip(0) =~= a@);
    assert(b@.skip(0) =~= b@);
    while i < a.len() && i < b.len()
        invariant
            i <= a@.len(),
            i <= b@.len(),
            lex_lt(a@, b@) == lex_lt(a@.skip(i as int), b@.skip(i as int)),
        decreases a@.len() - i,
    {
        if a[i] != b[i] {
            return a[i] < b[i];
        }
        assert(a@.skip(i as int).drop_first() =~= a@.skip(i + 1));
        assert(b@.skip(i as int).drop_first() =~= b@.skip(i + 1));
        i += 1;
    }
    i < b.len()
}

/// `s` without repeats, keeping first occurrences in order.
pub open spec fn dedup_seq<A>(s: Seq<A>) -> Seq<A>
    decreases s.len(),
{
    if s.len() == 0 {
        Seq::empty()
    } else {
        let prev = dedup_seq(s.drop_last());
        if prev.contains(s.last()) {
            prev
        } else {
            prev.push(s.last())
        }
    }
}

/// The strings of `v` without repeats, keeping first occurrences in order.
pub fn dedup_strings(v: Vec<String>) -> (r: Vec<String>)
    ensures
        texts(r@) == dedup_seq(texts(v@)),
{
    let mut r: Vec<String> = Vec::new();
    let mut i: usize = 0;
    while i < v.len()
        invariant
            i <= v@.len(),
            texts(r@) == dedup_seq(texts(v@.subrange(0, i as int))),
        decreases v@.len() - i,
    {
        assert(texts(v@.subrange(0, i + 1)).drop_last() =~= texts(v@.subrange(0, i as int)));
        assert(texts(v@.subrange(0, i + 1)).last() == v@[i as int]@);
        if !contains_string(&r, &v[i]) {
            r.push(v[i].clone());
        }
        i += 1;
        assert(texts(r@) =~= dedup_seq(texts(v@.subrange(0, i as int))));
    }
    assert(v@.subrange(0, v@.len() as int) =~= v@);
    r
}


/// The words of `s` from index `i` on: its maximal runs of characters that
/// are not white space (`str::split_whitespace`).
pub open spec fn words_from(s: Seq<char>, i: int) -> Seq<Seq<char>>
    decreases s.len() - i,
{
    if i < 0 || i >= s.len() {
        Seq::empty()
    } else {
        let a = skip_fwd(s, |c: char| is_ws(c), i);
        if a >= s.len() {
            Seq::empty()
        } else {
            let b = skip_fwd(s, |c: char| !is_ws(c), a);
            proof {
                lemma_skip_fwd_bounds(s, |c: char| is_ws(c), i);
                lemma_skip_fwd_bounds(s, |c: char| !is_ws(c), a);
                lemma_skip_fwd_moves(s, |c: char| !is_ws(c), a);
            }
            seq![s.subrange(a, b)] + words_from(s, b)
        }
    }
}

/// `str::split_whitespace`.
pub open spec fn words(s: Seq<char>) -> Seq<Seq<char>> {
    words_from(s, 0)
}

pub proof fn lemma_skip_fwd_moves(s: Seq<char>, p: spec_fn(char) -> bool, i: int)
    requires
        0 <= i < s.len(),
        p(s[i]),
    ensures
        skip_fwd(s, p, i) > i,
{
    lemma_skip_fwd_bounds(s, p, i + 1);
}

/// The words of `s` (see `words`).
pub fn split_whitespace(s: &str) -> (r: Vec<String>)
    ensures
        texts(r@) == words(s@),
{
    let v = chars_of(s);
    let n = v.len();
    let mut r: Vec<String> = Vec::new();
    let mut i: usize = 0;
    while i < n
        invariant
            n == v@.len(),
            v@ == s@,
            i <= n,
            texts(r@) + words_from(v@, i as int) == words(v@),
        decreases n - i,
    {
        let mut a = i;
        while a < n && char_is_whitespace(v[a])
            invariant
                i <= a <= n,
                n == v@.len(),
                skip_fwd(v@, |c: char| is_ws(c), i as int) == skip_fwd(v@, |c: char| is_ws(c), a as int),
            decreases n - a,
        {
            a += 1;
        }
        if a >= n {
            assert(words_from(v@, i as int) =~= Seq::<Seq<char>>::empty());
            assert(texts(r@) =~= words(v@));
            i = n;
        } else {
            let mut b = a;
            while b < n && !char_is_whitespace(v[b])
                invariant
                    a <= b <= n,
                    n == v@.len(),
                    skip_fwd(v@, |c: char| !is_ws(c), a as int) == skip_fwd(v@, |c: char| !is_ws(c), b as int),
                decreases n - b,
            {
                b += 1;
            }
            proof {
                lemma_skip_fwd_moves(v@, |c: char| !is_ws(c), a as int);
            }
            let ghost before = texts(r@);
            r.push(string_of_range(&v, a, b));
            assert(texts(r@) =~= before.push(v@.subrange(a as int, b as int)));
            assert(words_from(v@, i as int) =~= seq![v@.subrange(a as int, b as int)] + words_from(v@, b as int));
            assert(texts(r@) + words_from(v@, b as int) =~= before + words_from(v@, i as int));
            i = b;
        }
    }
    assert(words_from(v@, i as int) =~= Seq::<Seq<char>>::empty());
    assert(texts(r@) =~= words(v@));
    r
}

/// `s` with every non-overlapping occurrence of `pat`, from the left,
/// replaced by `rep` (`str::replace`).
pub open spec fn replace_all(s: Seq<char>, pat: Seq<char>, rep: Seq<char>) -> Seq<char>
    decreases s.len(),
{
    if s.len() == 0 || pat.len() == 0 {
        s
    } else if starts_with(s, pat) {
        rep + replace_all(s.skip(pat.len() as int), pat, rep)
    } else {
        seq![s[0]] + replace_all(s.drop_first(), pat, rep)
    }
}

/// `s` with every non-overlapping occurrence of `pat` replaced by `rep`.
pub fn replace_text(s: &str, pat: &str, rep: &str) -> (r: String)
    requires
        pat@.len() > 0,
    ensures
        r@ == replace_all(s@, pat@, rep@),
{
    let v = chars_of(s);
    let p = chars_of(pat);
    let q = chars_of(rep);
    let mut out: Vec<char> = Vec::new();
    let mut i: usize = 0;
    assert(v@.skip(0) =~= v@);
    assert(out@ + replace_all(v@, p@, q@) =~= replace_all(v@, p@, q@));
    while i < v.len()
        invariant
            i <= v@.len(),
            p@.len() > 0,
            p@ == pat@,
            q@ == rep@,
            out@ + replace_all(v@.skip(i as int), p@, q@) == replace_all(v@, p@, q@),
        decreases v@.len() - i,
    {
        assert(v@.skip(i as int).len() > 0);
        if matches_at(&v, &p, i) {
            assert(starts_with(v@.skip(i as int), p@)) by {
                assert(v@.skip(i as int).subrange(0, p@.len() as int) =~= v@.subrange(i as int, i + p@.len()));
            }
            assert(v@.skip(i as int).skip(p@.len() as int) =~= v@.skip(i + p@.len()));
            let ghost before = out@;
            let mut k: usize = 0;
            while k < q.len()
                invariant
                    k <= q@.len(),
                    out@ == before + q@.subrange(0, k as int),
                decreases q@.len() - k,
            {
                out.push(q[k]);
                k += 1;
                assert(out@ =~= before + q@.subrange(0, k as int));
            }
            assert(q@.subrange(0, q@.len() as int) =~= q@);
            assert(out@ + replace_all(v@.skip(i + p@.len()), p@, q@) =~= before + replace_all(v@.skip(i as int), p@, q@));
            i += p.len();
        } else {
            assert(!starts_with(v@.skip(i as int), p@)) by {
                if v@.skip(i as int).len() >= p@.len() {
                    assert(v@.skip(i as int).subrange(0, p@.len() as int) =~= v@.subrange(i as int, i + p@.len()));
                }
            }
            assert(v@.skip(i as int).drop_first() =~= v@.skip(i + 1));
            let ghost before = out@;
            out.push(v[i]);
            assert(out@ + replace_all(v@.skip(i + 1), p@, q@) =~= before + replace_all(v@.skip(i as int), p@, q@));
            i += 1;
        }
    }
    assert(v@.skip(i as int) =~= Seq::<char>::empty());
    assert(out@ =~= replace_all(v@, p@, q@));
    string_of(&out)
}

/// Whether `char::is_alphanumeric` holds of `c` (Unicode `Alphabetic` or `Numeric`).
pub uninterp spec fn unicode_alphanumeric(c: char) -> bool;

/// `char::is_alphanumeric`.
#[verifier::external_body]
pub(crate) fn char_is_alphanumeric(c: char) -> (r: bool)
    ensures
        r == unicode_alphanumeric(c),
{
    c.is_alphanumeric()
}


/// `str::trim_matches(|c: char| !c.is_alphanumeric())`.
pub fn trim_non_alphanumeric(s: &str) -> (r: String)
    ensures
        r@ == trim_by(s@, |c: char| !unicode_alphanumeric(c)),
{
    let v = chars_of(s);
    let mut mask: Vec<bool> = Vec::new();
    let mut i: usize = 0;
    while i < v.len()
        invariant
            i <= v@.len(),
            mask@.len() == i,
            forall|k: int| 0 <= k < i ==> mask@[k] == !unicode_alphanumeric(#[trigger] v@[k]),
        decreases v@.len() - i,
    {
        mask.push(!char_is_alphanumeric(v[i]));
        i += 1;
    }
    let ghost p = |c: char| !unicode_alphanumeric(c);
    let (a, b) = trim_bounds(&v, &mask, Ghost(p));
    string_of_range(&v, a, b)
}

/// The parts joined with `sep` between them.
pub open spec fn join_with(parts: Seq<Seq<char>>, sep: Seq<char>) -> Seq<char>
    decreases parts.len(),
{
    if parts.len() == 0 {
        Seq::empty()
    } else if parts.len() == 1 {
        parts[0]
    } else {
        join_with(parts.drop_last(), sep) + sep + parts.last()
    }
}

/// The strings joined with `sep` between them (`[String]::join`).
pub fn join_strings(parts: &Vec<String>, sep: &str) -> (r: String)
    ensures
        r@ == join_with(texts(parts@), sep@),
{
    let mut r = String::new();
    let mut i: usize = 0;
    while i < parts.len()
        invariant
            i <= parts@.len(),
            r@ == join_with(texts(parts@.subrange(0, i as int)), sep@),
        decreases parts@.len() - i,
    {
        assert(texts(parts@.subrange(0, i + 1)).drop_last() =~= texts(parts@.subrange(0, i as int)));
        assert(texts(parts@.subrange(0, i + 1)).last() == parts@[i as int]@);
        if i > 0 {
            r.append(sep);
        }
        r.append(parts[i].as_str());
        i += 1;
        proof {
            if i == 1 {
                assert(r@ =~= texts(parts@.subrange(0, 1))[0]);
            }
        }
    }
    assert(parts@.subrange(0, parts@.len() as int) =~= parts@);
    r
}

/// The decimal digits of `n` (`u64::to_string`).
pub open spec fn decimal_text(n: nat) -> Seq<char>
    decreases n,
{
    if n < 10 {
        seq![('0' as nat + n) as char]
    } else {
        decimal_text(n / 10).push(('0' as nat + n % 10) as char)
    }
}

/// The decimal text of `n` (see `decimal_text`).
pub fn decimal_string(n: u64) -> (r: String)
    ensures
        r@ == decimal_text(n as nat),
    decreases n,
{
    let digit = ((n % 10) as u8 + 48u8) as char;
    assert(digit == ('0' as nat + n % 10) as char);
    if n < 10 {
        let mut s = String::new();
        string_push(&mut s, digit);
        assert(s@ =~= seq![digit]);
        s
    } else {
        let mut s = decimal_string(n / 10);
        string_push(&mut s, digit);
        s
    }
}

} // verus!
