//! Character-level text handling shared by the UI and Bluetooth modules.
//!
//! The wire protocol between the Bluetooth task and the UI is line-oriented
//! text (`DEVICE:<addr>|<name>`, `CONN:Connected to <addr>`, ...). This module
//! gives the operations that protocol needs a mathematical meaning over
//! `Seq<char>` and implements them over `Vec<char>` and `String`.
use vstd::prelude::*;

verus! {

// ---------------------------------------------------------------------------
// Character classes
// ---------------------------------------------------------------------------
/// The Unicode `White_Space` property, which `char::is_whitespace` follows.
pub open spec fn is_ws(c: char) -> bool {
    let u = c as u32;
    ||| 0x09 <= u <= 0x0D
    ||| u == 0x20
    ||| u == 0x85
    ||| u == 0xA0
    ||| u == 0x1680
    ||| 0x2000 <= u <= 0x200A
    ||| u == 0x2028
    ||| u == 0x2029
    ||| u == 0x202F
    ||| u == 0x205F
    ||| u == 0x3000
}

/// The Unicode general category `Cc`, which `char::is_control` follows.
pub open spec fn is_control(c: char) -> bool {
    let u = c as u32;
    u <= 0x1F || (0x7F <= u && u <= 0x9F)
}

pub open spec fn is_ascii_digit(c: char) -> bool {
    '0' <= c && c <= '9'
}

pub fn is_whitespace_char(c: char) -> (r: bool)
    ensures
        r == is_ws(c),
{
    let u = c as u32;
    (0x09 <= u && u <= 0x0D) || u == 0x20 || u == 0x85 || u == 0xA0 || u == 0x1680 || (0x2000 <= u
        && u <= 0x200A) || u == 0x2028 || u == 0x2029 || u == 0x202F || u == 0x205F || u == 0x3000
}

pub fn is_control_char(c: char) -> (r: bool)
    ensures
        r == is_control(c),
{
    let u = c as u32;
    u <= 0x1F || (0x7F <= u && u <= 0x9F)
}

// ---------------------------------------------------------------------------
// Sequence operations: prefix, trimming, words, splitting
// ---------------------------------------------------------------------------
pub open spec fn has_prefix(s: Seq<char>, p: Seq<char>) -> bool {
    p.len() <= s.len() && s.subrange(0, p.len() as int) == p
}

/// What remains of `s` once `p` is taken off its front.
pub open spec fn after_prefix(s: Seq<char>, p: Seq<char>) -> Seq<char> {
    s.subrange(p.len() as int, s.len() as int)
}

/// `str::trim_start`.
pub open spec fn trim_start_seq(s: Seq<char>) -> Seq<char>
    decreases s.len(),
{
    if s.len() > 0 && is_ws(s[0]) {
        trim_start_seq(s.drop_first())
    } else {
        s
    }
}

/// `str::trim_end`.
pub open spec fn trim_end_seq(s: Seq<char>) -> Seq<char>
    decreases s.len(),
{
    if s.len() > 0 && is_ws(s.last()) {
        trim_end_seq(s.drop_last())
    } else {
        s
    }
}

/// `str::trim`.
pub open spec fn trim_seq(s: Seq<char>) -> Seq<char> {
    trim_end_seq(trim_start_seq(s))
}

/// `str::trim_start_matches` with a string pattern: every leading copy of `p` is removed.
pub open spec fn trim_start_matches_seq(s: Seq<char>, p: Seq<char>) -> Seq<char>
    decreases s.len(),
{
    if p.len() > 0 && has_prefix(s, p) {
        trim_start_matches_seq(after_prefix(s, p), p)
    } else {
        s
    }
}

/// Length of the run of non-whitespace characters at the front of `s`.
pub open spec fn word_len(s: Seq<char>) -> nat
    decreases s.len(),
{
    if s.len() == 0 || is_ws(s[0]) {
        0
    } else {
        1 + word_len(s.drop_first())
    }
}

/// `s.split_whitespace().next()`.
pub open spec fn first_word(s: Seq<char>) -> Option<Seq<char>> {
    let t = trim_start_seq(s);
    if t.len() == 0 {
        None
    } else {
        Some(t.subrange(0, word_len(t) as int))
    }
}

/// `s.split_whitespace().nth(1)`.
pub open spec fn second_word(s: Seq<char>) -> Option<Seq<char>> {
    let t = trim_start_seq(s);
    if t.len() == 0 {
        None
    } else {
        first_word(t.subrange(word_len(t) as int, t.len() as int))
    }
}

/// Index of the first occurrence of `c` in `s`.
pub open spec fn first_index(s: Seq<char>, c: char) -> Option<nat>
    decreases s.len(),
{
    if s.len() == 0 {
        None
    } else if s[0] == c {
        Some(0)
    } else {
        match first_index(s.drop_first(), c) {
            Some(i) => Some(i + 1),
            None => None,
        }
    }
}

/// The two items of `s.splitn(2, c)`: the part before the first `c`, and the
/// part after it when there is one.
pub open spec fn split_once(s: Seq<char>, c: char) -> (Seq<char>, Option<Seq<char>>) {
    match first_index(s, c) {
        Some(i) => (s.subrange(0, i as int), Some(s.subrange(i as int + 1, s.len() as int))),
        None => (s, None),
    }
}

// ---------------------------------------------------------------------------
// Numbers as text
// ---------------------------------------------------------------------------
pub open spec fn digit_char(d: nat) -> char
    recommends
        d < 10,
{
    ((d + 0x30) as u32) as char
}

/// Decimal digits of `n`, as `u64`'s `Display` writes them.
pub open spec fn decimal_digits(n: nat) -> Seq<char>
    decreases n,
{
    if n < 10 {
        seq![digit_char(n)]
    } else {
        decimal_digits(n / 10).push(digit_char(n % 10))
    }
}

/// Value of a string of decimal digits.
pub open spec fn decimal_value(s: Seq<char>) -> nat
    decreases s.len(),
{
    if s.len() == 0 {
        0
    } else {
        decimal_value(s.drop_last()) * 10 + ((s.last() as u32) - 0x30) as nat
    }
}

pub open spec fn all_digits(s: Seq<char>) -> bool {
    forall|i: int| 0 <= i < s.len() ==> is_ascii_digit(#[trigger] s[i])
}

/// `str::parse::<u32>`: an optional `+`, then one or more ASCII digits whose value fits.
pub open spec fn parse_u32_seq(s: Seq<char>) -> Option<u32> {
    let d = if s.len() > 0 && s[0] == '+' {
        s.drop_first()
    } else {
        s
    };
    if d.len() > 0 && all_digits(d) && decimal_value(d) <= u32::MAX {
        Some(decimal_value(d) as u32)
    } else {
        None
    }
}

/// Upper-case hexadecimal digit.
pub open spec fn hex_digit(d: nat) -> char
    recommends
        d < 16,
{
    if d < 10 {
        ((d + 0x30) as u32) as char
    } else {
        ((d + 0x37) as u32) as char
    }
}

/// A byte as two upper-case hexadecimal digits (`{:02X}`).
pub open spec fn hex_byte(b: u8) -> Seq<char> {
    seq![hex_digit((b / 16) as nat), hex_digit((b % 16) as nat)]
}

/// Bytes `c` takes in UTF-8.
pub open spec fn char_utf8_width(c: char) -> nat {
    let u = c as u32;
    if u <= 0x7F {
        1
    } else if u <= 0x7FF {
        2
    } else if u <= 0xFFFF {
        3
    } else {
        4
    }
}

/// Bytes `s` takes in UTF-8 (`String::len`).
pub open spec fn utf8_len(s: Seq<char>) -> nat
    decreases s.len(),
{
    if s.len() == 0 {
        0
    } else {
        utf8_len(s.drop_last()) + char_utf8_width(s.last())
    }
}

/// Code-point lexicographic order, the order `str`'s `Ord` gives (UTF-8 keeps it).
pub open spec fn lex_lt(a: Seq<char>, b: Seq<char>) -> bool
    decreases a.len(),
{
    if b.len() == 0 {
        false
    } else if a.len() == 0 {
        true
    } else if a[0] != b[0] {
        a[0] < b[0]
    } else {
        lex_lt(a.drop_first(), b.drop_first())
    }
}

/// Three outcomes of comparing two strings.
#[derive(Clone, Copy, PartialEq, Eq, Structural, Debug)]
pub enum LexOrder {
    Before,
    Same,
    After,
}

// ---------------------------------------------------------------------------
// Lemmas
// ---------------------------------------------------------------------------
/// Skipping a run of whitespace `s[i..j]` that ends at a non-whitespace
/// character (or at the end) is what `trim_start` does to `s[i..]`.
pub proof fn lemma_trim_start_at(s: Seq<char>, i: int, j: int)
    requires
        0 <= i <= j <= s.len(),
        forall|k: int| i <= k < j ==> is_ws(#[trigger] s[k]),
        j == s.len() || !is_ws(s[j]),
    ensures
        trim_start_seq(s.subrange(i, s.len() as int)) == s.subrange(j, s.len() as int),
    decreases j - i,
{
    let t = s.subrange(i, s.len() as int);
    if i == j {
        if t.len() > 0 {
            assert(t[0] == s[j]);
        }
    } else {
        assert(t[0] == s[i]);
        assert(t.drop_first() =~= s.subrange(i + 1, s.len() as int));
        lemma_trim_start_at(s, i + 1, j);
    }
}

/// Dropping a run of trailing whitespace `s[j..i]` preceded by a
/// non-whitespace character (or the start) is what `trim_end` does to `s[..i]`.
pub proof fn lemma_trim_end_at(s: Seq<char>, i: int, j: int)
    requires
        0 <= j <= i <= s.len(),
        forall|k: int| j <= k < i ==> is_ws(#[trigger] s[k]),
        j == 0 || !is_ws(s[j - 1]),
    ensures
        trim_end_seq(s.subrange(0, i)) == s.subrange(0, j),
    decreases i - j,
{
    let t = s.subrange(0, i);
    if i == j {
        if t.len() > 0 {
            assert(t.last() == s[j - 1]);
        }
    } else {
        assert(t.last() == s[i - 1]);
        assert(t.drop_last() =~= s.subrange(0, i - 1));
        lemma_trim_end_at(s, i - 1, j);
    }
}

/// A run of non-whitespace characters `s[i..j]` ended by whitespace (or the
/// end) is the word at the front of `s[i..]`.
pub proof fn lemma_word_len_at(s: Seq<char>, i: int, j: int)
    requires
        0 <= i <= j <= s.len(),
        forall|k: int| i <= k < j ==> !is_ws(#[trigger] s[k]),
        j == s.len() || is_ws(s[j]),
    ensures
        word_len(s.subrange(i, s.len() as int)) == j - i,
    decreases j - i,
{
    let t = s.subrange(i, s.len() as int);
    if i == j {
        if t.len() > 0 {
            assert(t[0] == s[j]);
        }
    } else {
        assert(t[0] == s[i]);
        assert(t.drop_first() =~= s.subrange(i + 1, s.len() as int));
        lemma_word_len_at(s, i + 1, j);
    }
}

/// The first occurrence of `c` in `s[i..]` is at `j` when `s[i..j]` holds no `c`.
pub proof fn lemma_first_index_at(s: Seq<char>, c: char, i: int, j: int)
    requires
        0 <= i <= j <= s.len(),
        forall|k: int| i <= k < j ==> #[trigger] s[k] != c,
    ensures
        j < s.len() && s[j] == c ==> first_index(s.subrange(i, s.len() as int), c) == Some(
            (j - i) as nat,
        ),
        j == s.len() ==> first_index(s.subrange(i, s.len() as int), c) == None::<nat>,
    decreases j - i,
{
    let t = s.subrange(i, s.len() as int);
    if i == j {
        if t.len() > 0 {
            assert(t[0] == s[j]);
        }
    } else {
        assert(t[0] == s[i]);
        assert(t.drop_first() =~= s.subrange(i + 1, s.len() as int));
        lemma_first_index_at(s, c, i + 1, j);
    }
}

pub proof fn lemma_decimal_value_push(s: Seq<char>, c: char)
    ensures
        decimal_value(s.push(c)) == decimal_value(s) * 10 + ((c as u32) - 0x30) as nat,
{
    assert(s.push(c).drop_last() =~= s);
}

/// Appending digits never makes a decimal value smaller.
pub proof fn lemma_decimal_value_prefix(s: Seq<char>, k: int)
    requires
        0 <= k <= s.len(),
        all_digits(s),
    ensures
        decimal_value(s.subrange(0, k)) <= decimal_value(s),
    decreases s.len() - k,
{
    if k < s.len() {
        lemma_decimal_value_prefix(s, k + 1);
        let p = s.subrange(0, k + 1);
        assert(p.drop_last() =~= s.subrange(0, k));
        assert(is_ascii_digit(s[k]));
    } else {
        assert(s.subrange(0, k) =~= s);
    }
}

pub proof fn lemma_lex_irreflexive(a: Seq<char>)
    ensures
        !lex_lt(a, a),
    decreases a.len(),
{
    if a.len() > 0 {
        lemma_lex_irreflexive(a.drop_first());
    }
}

pub proof fn lemma_lex_asymmetric(a: Seq<char>, b: Seq<char>)
    ensures
        lex_lt(a, b) ==> !lex_lt(b, a),
    decreases a.len(),
{
    if a.len() > 0 && b.len() > 0 && a[0] == b[0] {
        lemma_lex_asymmetric(a.drop_first(), b.drop_first());
    }
}

pub proof fn lemma_lex_total(a: Seq<char>, b: Seq<char>)
    ensures
        a != b ==> lex_lt(a, b) || lex_lt(b, a),
    decreases a.len(),
{
    if a.len() > 0 && b.len() > 0 && a[0] == b[0] {
        lemma_lex_total(a.drop_first(), b.drop_first());
        if a.drop_first() == b.drop_first() {
            assert(a =~= seq![a[0]] + a.drop_first());
            assert(b =~= seq![b[0]] + b.drop_first());
        }
    } else if a.len() == 0 && b.len() == 0 {
        assert(a =~= b);
    }
}

pub proof fn lemma_lex_transitive(a: Seq<char>, b: Seq<char>, c: Seq<char>)
    requires
        lex_lt(a, b),
        lex_lt(b, c),
    ensures
        lex_lt(a, c),
    decreases a.len(),
{
    if a.len() > 0 && b.len() > 0 && c.len() > 0 && a[0] == b[0] && b[0] == c[0] {
        lemma_lex_transitive(a.drop_first(), b.drop_first(), c.drop_first());
    }
}

/// Comparing after a common prefix of length `i` is comparing the rests.
pub proof fn lemma_lex_common_prefix(a: Seq<char>, b: Seq<char>, i: int)
    requires
        0 <= i <= a.len(),
        i <= b.len(),
        forall|k: int| 0 <= k < i ==> a[k] == b[k],
    ensures
        lex_lt(a, b) == lex_lt(a.subrange(i, a.len() as int), b.subrange(i, b.len() as int)),
    decreases i,
{
    if i > 0 {
        lemma_lex_common_prefix(a.drop_first(), b.drop_first(), i - 1);
        assert(a.drop_first().subrange(i - 1, a.len() - 1) =~= a.subrange(i, a.len() as int));
        assert(b.drop_first().subrange(i - 1, b.len() - 1) =~= b.subrange(i, b.len() as int));
    } else {
        assert(a.subrange(0, a.len() as int) =~= a);
        assert(b.subrange(0, b.len() as int) =~= b);
    }
}

// ---------------------------------------------------------------------------
// Executable helpers
// ---------------------------------------------------------------------------
/// Appends one character to a `String` (`String::push`).
#[verifier::external_body]
pub(crate) fn push_char(s: &mut String, c: char)
    ensures
        final(s)@ == old(s)@.push(c),
{
    s.push(c);
}

/// The characters of a string slice, in order.
pub fn chars_of(s: &str) -> (v: Vec<char>)
    ensures
        v@ == s@,
{
    let n = s.unicode_len();
    let mut v: Vec<char> = Vec::new();
    for i in 0..n
        invariant
            n == s@.len(),
            v@ == s@.subrange(0, i as int),
    {
        let c = s.get_char(i);
        v.push(c);
        assert(v@ =~= s@.subrange(0, i + 1));
    }
    assert(v@ =~= s@);
    v
}

/// Appends the characters `v[lo..hi]` to `s`.
pub fn push_chars(s: &mut String, v: &[char], lo: usize, hi: usize)
    requires
        lo <= hi <= v@.len(),
    ensures
        final(s)@ == old(s)@ + v@.subrange(lo as int, hi as int),
{
    let ghost start = s@;
    let mut i = lo;
    while i < hi
        invariant
            lo <= i <= hi <= v@.len(),
            s@ == start + v@.subrange(lo as int, i as int),
        decreases hi - i,
    {
        push_char(s, v[i]);
        assert(v@.subrange(lo as int, i + 1) =~= v@.subrange(lo as int, i as int).push(v@[i as int]));
        i = i + 1;
    }
}

/// The string made of `v[lo..hi]`.
pub fn string_of(v: &[char], lo: usize, hi: usize) -> (s: String)
    requires
        lo <= hi <= v@.len(),
    ensures
        s@ == v@.subrange(lo as int, hi as int),
{
    let mut s = String::new();
    push_chars(&mut s, v, lo, hi);
    assert(s@ =~= v@.subrange(lo as int, hi as int));
    s
}

/// Appends a string slice to `s`.
pub fn push_str(s: &mut String, t: &str)
    ensures
        final(s)@ == old(s)@ + t@,
{
    s.append(t);
}

/// `s1 + s2` as a fresh string.
pub fn concat2(a: &str, b: &str) -> (s: String)
    ensures
        s@ == a@ + b@,
{
    let mut s = String::from_str(a);
    s.append(b);
    s
}

/// Whether `v` starts with the characters of `p`.
pub fn starts_with(v: &[char], p: &str) -> (r: bool)
    ensures
        r == has_prefix(v@, p@),
{
    let pv = chars_of(p);
    if pv.len() > v.len() {
        return false;
    }
    let mut i: usize = 0;
    while i < pv.len()
        invariant
            pv@ == p@,
            pv@.len() <= v@.len(),
            i <= pv@.len(),
            forall|k: int| 0 <= k < i ==> v@[k] == pv@[k],
        decreases pv.len() - i,
    {
        if v[i] != pv[i] {
            assert(v@.subrange(0, pv@.len() as int)[i as int] != pv@[i as int]);
            return false;
        }
        i = i + 1;
    }
    assert(v@.subrange(0, pv@.len() as int) =~= pv@);
    true
}

/// Whether `v[j..]` starts with `p`.
pub fn starts_with_at(v: &[char], j: usize, p: &[char]) -> (r: bool)
    requires
        j <= v@.len(),
    ensures
        r == has_prefix(v@.subrange(j as int, v@.len() as int), p@),
{
    let ghost t = v@.subrange(j as int, v@.len() as int);
    let n = v.len();
    if p.len() > n - j {
        return false;
    }
    let mut i: usize = 0;
    while i < p.len()
        invariant
            n == v@.len(),
            j <= v@.len(),
            p@.len() <= v@.len() - j,
            i <= p@.len(),
            t == v@.subrange(j as int, v@.len() as int),
            forall|k: int| 0 <= k < i ==> v@[j + k] == p@[k],
        decreases p.len() - i,
    {
        if v[j + i] != p[i] {
            assert(t.subrange(0, p@.len() as int)[i as int] != p@[i as int]);
            return false;
        }
        i = i + 1;
    }
    assert(t.subrange(0, p@.len() as int) =~= p@);
    true
}

/// Whether two character sequences are equal.
pub fn chars_eq(a: &[char], b: &[char]) -> (r: bool)
    ensures
        r == (a@ == b@),
{
    if a.len() != b.len() {
        return false;
    }
    let mut i: usize = 0;
    while i < a.len()
        invariant
            a@.len() == b@.len(),
            i <= a@.len(),
            forall|k: int| 0 <= k < i ==> a@[k] == b@[k],
        decreases a.len() - i,
    {
        if a[i] != b[i] {
            return false;
        }
        i = i + 1;
    }
    assert(a@ =~= b@);
    true
}

/// Index of the first character at or after `i` that is not whitespace.
pub fn skip_ws(v: &[char], i: usize) -> (j: usize)
    requires
        i <= v@.len(),
    ensures
        i <= j <= v@.len(),
        forall|k: int| i <= k < j ==> is_ws(#[trigger] v@[k]),
        j == v@.len() || !is_ws(v@[j as int]),
{
    let mut j = i;
    while j < v.len() && is_whitespace_char(v[j])
        invariant
            i <= j <= v@.len(),
            forall|k: int| i <= k < j ==> is_ws(#[trigger] v@[k]),
        decreases v.len() - j,
    {
        j = j + 1;
    }
    j
}

/// Index of the first whitespace character at or after `i`.
pub fn skip_word(v: &[char], i: usize) -> (j: usize)
    requires
        i <= v@.len(),
    ensures
        i <= j <= v@.len(),
        forall|k: int| i <= k < j ==> !is_ws(#[trigger] v@[k]),
        j == v@.len() || is_ws(v@[j as int]),
{
    let mut j = i;
    while j < v.len() && !is_whitespace_char(v[j])
        invariant
            i <= j <= v@.len(),
            forall|k: int| i <= k < j ==> !is_ws(#[trigger] v@[k]),
        decreases v.len() - j,
    {
        j = j + 1;
    }
    j
}

/// Start and end of `str::trim` applied to `v[lo..]`.
pub fn trim_bounds(v: &[char], lo: usize) -> (r: (usize, usize))
    requires
        lo <= v@.len(),
    ensures
        lo <= r.0 <= r.1 <= v@.len(),
        v@.subrange(r.0 as int, r.1 as int) == trim_seq(v@.subrange(lo as int, v@.len() as int)),
{
    let a = skip_ws(v, lo);
    proof {
        lemma_trim_start_at(v@, lo as int, a as int);
    }
    let mut b = v.len();
    while b > a && is_whitespace_char(v[b - 1])
        invariant
            a <= b <= v@.len(),
            forall|k: int| b <= k < v@.len() ==> is_ws(#[trigger] v@[k]),
        decreases b,
    {
        b = b - 1;
    }
    proof {
        let t = v@.subrange(a as int, v@.len() as int);
        assert forall|k: int| b - a <= k < t.len() implies is_ws(#[trigger] t[k]) by {
            assert(t[k] == v@[k + a]);
        }
        if b > a {
            assert(t[b - a - 1] == v@[b - 1]);
        }
        lemma_trim_end_at(t, t.len() as int, b - a);
        assert(t.subrange(0, t.len() as int) =~= t);
        assert(t.subrange(0, b - a) =~= v@.subrange(a as int, b as int));
    }
    (a, b)
}

/// `str::trim`.
pub fn trim(s: &str) -> (r: String)
    ensures
        r@ == trim_seq(s@),
{
    let v = chars_of(s);
    let (a, b) = trim_bounds(&v, 0);
    proof {
        assert(v@.subrange(0, v@.len() as int) =~= v@);
    }
    string_of(&v, a, b)
}

/// Start index of `str::trim_start_matches(v[lo..], p)` inside `v`.
pub fn trim_start_matches_from(v: &[char], lo: usize, p: &str) -> (j: usize)
    requires
        lo <= v@.len(),
    ensures
        lo <= j <= v@.len(),
        v@.subrange(j as int, v@.len() as int) == trim_start_matches_seq(
            v@.subrange(lo as int, v@.len() as int),
            p@,
        ),
{
    let pv = chars_of(p);
    let n = v.len();
    let mut j = lo;
    if pv.len() == 0 {
        return j;
    }
    loop
        invariant
            n == v@.len(),
            pv@ == p@,
            pv@.len() > 0,
            lo <= j <= v@.len(),
            trim_start_matches_seq(v@.subrange(j as int, v@.len() as int), p@)
                == trim_start_matches_seq(v@.subrange(lo as int, v@.len() as int), p@),
        decreases v@.len() - j,
    {
        let ghost t = v@.subrange(j as int, v@.len() as int);
        let m = starts_with_at(v, j, pv.as_slice());
        if !m {
            return j;
        }
        assert(has_prefix(t, pv@));
        assert(t.len() == v@.len() - j);
        assert(after_prefix(t, p@) =~= v@.subrange(j + pv@.len(), v@.len() as int));
        j = j + pv.len();
    }
}

/// `Some(p.len())` in characters when `v` starts with `p`.
pub fn match_prefix(v: &[char], p: &str) -> (r: Option<usize>)
    ensures
        match r {
            Some(j) => has_prefix(v@, p@) && j == p@.len(),
            None => !has_prefix(v@, p@),
        },
{
    if starts_with(v, p) {
        Some(p.unicode_len())
    } else {
        None
    }
}

/// A copy of `v[lo..hi]`.
pub fn sub_chars(v: &[char], lo: usize, hi: usize) -> (w: Vec<char>)
    requires
        lo <= hi <= v@.len(),
    ensures
        w@ == v@.subrange(lo as int, hi as int),
{
    let mut w: Vec<char> = Vec::new();
    let mut i = lo;
    while i < hi
        invariant
            lo <= i <= hi <= v@.len(),
            w@ == v@.subrange(lo as int, i as int),
        decreases hi - i,
    {
        w.push(v[i]);
        assert(w@ =~= v@.subrange(lo as int, i + 1));
        i = i + 1;
    }
    w
}

/// Position of the first `c` in `w`.
pub fn find_char(w: &[char], c: char) -> (r: Option<usize>)
    ensures
        match r {
            Some(i) => first_index(w@, c) == Some(i as nat) && i < w@.len(),
            None => first_index(w@, c) is None,
        },
{
    let n = w.len();
    let mut i: usize = 0;
    while i < n
        invariant
            n == w@.len(),
            i <= n,
            forall|k: int| 0 <= k < i ==> #[trigger] w@[k] != c,
        decreases n - i,
    {
        if w[i] == c {
            proof {
                lemma_first_index_at(w@, c, 0, i as int);
                assert(w@.subrange(0, w@.len() as int) =~= w@);
            }
            return Some(i);
        }
        i = i + 1;
    }
    proof {
        lemma_first_index_at(w@, c, 0, n as int);
        assert(w@.subrange(0, w@.len() as int) =~= w@);
    }
    None
}

/// Where the first whitespace-separated word of `w` lies.
pub fn first_word_range(w: &[char]) -> (r: Option<(usize, usize)>)
    ensures
        match first_word(w@) {
            Some(x) => r matches Some(p) && p.0 <= p.1 <= w@.len() && w@.subrange(
                p.0 as int,
                p.1 as int,
            ) == x,
            None => r is None,
        },
{
    let a = skip_ws(w, 0);
    proof {
        lemma_trim_start_at(w@, 0, a as int);
        assert(w@.subrange(0, w@.len() as int) =~= w@);
    }
    if a == w.len() {
        return None;
    }
    let b = skip_word(w, a);
    proof {
        lemma_word_len_at(w@, a as int, b as int);
        let t = w@.subrange(a as int, w@.len() as int);
        assert(t.subrange(0, b - a) =~= w@.subrange(a as int, b as int));
    }
    Some((a, b))
}

/// Where the second whitespace-separated word of `w` lies.
pub fn second_word_range(w: &[char]) -> (r: Option<(usize, usize)>)
    ensures
        match second_word(w@) {
            Some(x) => r matches Some(p) && p.0 <= p.1 <= w@.len() && w@.subrange(
                p.0 as int,
                p.1 as int,
            ) == x,
            None => r is None,
        },
{
    let a = skip_ws(w, 0);
    proof {
        lemma_trim_start_at(w@, 0, a as int);
        assert(w@.subrange(0, w@.len() as int) =~= w@);
    }
    if a == w.len() {
        return None;
    }
    let b = skip_word(w, a);
    let c = skip_ws(w, b);
    let ghost t = w@.subrange(a as int, w@.len() as int);
    proof {
        lemma_word_len_at(w@, a as int, b as int);
        assert(t.subrange(b - a, t.len() as int) =~= w@.subrange(b as int, w@.len() as int));
        lemma_trim_start_at(w@, b as int, c as int);
    }
    if c == w.len() {
        return None;
    }
    let d = skip_word(w, c);
    proof {
        lemma_word_len_at(w@, c as int, d as int);
        let u = w@.subrange(c as int, w@.len() as int);
        assert(u.subrange(0, d - c) =~= w@.subrange(c as int, d as int));
    }
    Some((c, d))
}

/// A prefix never takes more UTF-8 bytes than the whole.
pub proof fn lemma_utf8_len_prefix(s: Seq<char>, k: int)
    requires
        0 <= k <= s.len(),
    ensures
        utf8_len(s.subrange(0, k)) <= utf8_len(s),
    decreases s.len() - k,
{
    if k < s.len() {
        lemma_utf8_len_prefix(s, k + 1);
        assert(s.subrange(0, k + 1).drop_last() =~= s.subrange(0, k));
    } else {
        assert(s.subrange(0, k) =~= s);
    }
}

/// Whether `v` takes fewer than `limit` bytes in UTF-8.
pub fn utf8_len_below(v: &[char], limit: usize) -> (r: bool)
    ensures
        r == (utf8_len(v@) < limit),
{
    let n = v.len();
    if limit == 0 {
        return false;
    }
    let mut acc: usize = 0;
    let mut i: usize = 0;
    assert(v@.subrange(0, 0) =~= Seq::<char>::empty());
    while i < n
        invariant
            n == v@.len(),
            i <= n,
            acc == utf8_len(v@.subrange(0, i as int)),
            acc < limit,
        decreases n - i,
    {
        let c = v[i];
        let u = c as u32;
        let w: usize = if u <= 0x7F {
            1
        } else if u <= 0x7FF {
            2
        } else if u <= 0xFFFF {
            3
        } else {
            4
        };
        proof {
            assert(v@.subrange(0, i + 1).drop_last() =~= v@.subrange(0, i as int));
        }
        if w >= limit - acc {
            proof {
                lemma_utf8_len_prefix(v@, i + 1);
            }
            return false;
        }
        acc = acc + w;
        i = i + 1;
    }
    assert(v@.subrange(0, n as int) =~= v@);
    true
}

/// Compares two strings by code points.
pub fn lex_order(a: &[char], b: &[char]) -> (r: LexOrder)
    ensures
        (r == LexOrder::Before) == lex_lt(a@, b@),
        (r == LexOrder::Same) == (a@ == b@),
        (r == LexOrder::After) == lex_lt(b@, a@),
{
    let na = a.len();
    let nb = b.len();
    let mut i: usize = 0;
    while i < na && i < nb && a[i] == b[i]
        invariant
            na == a@.len(),
            nb == b@.len(),
            i <= na,
            i <= nb,
            forall|k: int| 0 <= k < i ==> a@[k] == b@[k],
        decreases na - i,
    {
        i = i + 1;
    }
    proof {
        lemma_lex_common_prefix(a@, b@, i as int);
        lemma_lex_common_prefix(b@, a@, i as int);
        lemma_lex_asymmetric(a@, b@);
        lemma_lex_irreflexive(a@);
        lemma_lex_total(a@, b@);
    }
    let ghost ra = a@.subrange(i as int, na as int);
    let ghost rb = b@.subrange(i as int, nb as int);
    if i == na && i == nb {
        assert(a@ =~= b@);
        LexOrder::Same
    } else if i == na {
        assert(ra.len() == 0 && rb.len() > 0);
        LexOrder::Before
    } else if i == nb {
        assert(rb.len() == 0 && ra.len() > 0);
        LexOrder::After
    } else if a[i] < b[i] {
        assert(ra[0] == a@[i as int] && rb[0] == b@[i as int]);
        LexOrder::Before
    } else {
        assert(ra[0] == a@[i as int] && rb[0] == b@[i as int]);
        LexOrder::After
    }
}

/// Appends the decimal digits of `n`.
pub fn push_decimal(s: &mut String, n: u64)
    ensures
        final(s)@ == old(s)@ + decimal_digits(n as nat),
    decreases n,
{
    if n >= 10 {
        push_decimal(s, n / 10);
    }
    let d = (n % 10) as u8;
    let c = (0x30u8 + d) as char;
    push_char(s, c);
    assert(s@ =~= old(s)@ + decimal_digits(n as nat));
}

/// Appends `{:02X}` of `b`.
pub fn push_hex_byte(s: &mut String, b: u8)
    ensures
        final(s)@ == old(s)@ + hex_byte(b),
{
    let hi = hex_digit_char(b / 16);
    let lo = hex_digit_char(b % 16);
    push_char(s, hi);
    push_char(s, lo);
    assert(s@ =~= old(s)@ + hex_byte(b));
}

fn hex_digit_char(d: u8) -> (c: char)
    requires
        d < 16,
    ensures
        c == hex_digit(d as nat),
{
    if d < 10 {
        (0x30u8 + d) as char
    } else {
        (0x37u8 + d) as char
    }
}

/// `s.parse::<u32>().ok()`.
pub fn parse_u32(s: &str) -> (r: Option<u32>)
    ensures
        r == parse_u32_seq(s@),
{
    let v = chars_of(s);
    let start: usize = if v.len() > 0 && v[0] == '+' {
        1
    } else {
        0
    };
    let ghost d = v@.subrange(start as int, v@.len() as int);
    proof {
        if v@.len() > 0 && v@[0] == '+' {
            assert(d =~= v@.drop_first());
        } else {
            assert(d =~= v@);
        }
    }
    if start == v.len() {
        return None;
    }
    let mut acc: u64 = 0;
    let mut i = start;
    while i < v.len()
        invariant
            start <= i <= v@.len(),
            d == v@.subrange(start as int, v@.len() as int),
            d == (if v@.len() > 0 && v@[0] == '+' {
                v@.drop_first()
            } else {
                v@
            }),
            v@ == s@,
            all_digits(v@.subrange(start as int, i as int)),
            acc == decimal_value(v@.subrange(start as int, i as int)),
            acc <= u32::MAX,
        decreases v.len() - i,
    {
        let c = v[i];
        if c < '0' || c > '9' {
            proof {
                assert(d[i - start] == c);
                assert(!all_digits(d));
            }
            return None;
        }
        let ghost pre = v@.subrange(start as int, i as int);
        proof {
            assert(v@.subrange(start as int, i + 1) =~= pre.push(c));
            lemma_decimal_value_push(pre, c);
        }
        let u = c as u32;
        assert(0x30 <= u <= 0x39);
        let next = acc * 10 + (u - 0x30) as u64;
        if next > 0xFFFF_FFFF {
            proof {
                let p = v@.subrange(start as int, i + 1);
                assert forall|m: int| 0 <= m < p.len() implies is_ascii_digit(#[trigger] p[m]) by {
                    if m < pre.len() {
                        assert(p[m] == pre[m]);
                    }
                }
                if all_digits(d) {
                    assert(d.subrange(0, i + 1 - start) =~= p);
                    lemma_decimal_value_prefix(d, i + 1 - start);
                }
            }
            return None;
        }
        acc = next;
        i = i + 1;
        proof {
            let p = v@.subrange(start as int, i as int);
            assert forall|m: int| 0 <= m < p.len() implies is_ascii_digit(#[trigger] p[m]) by {
                if m < pre.len() {
                    assert(p[m] == pre[m]);
                }
            }
        }
    }
    proof {
        assert(v@.subrange(start as int, v@.len() as int) =~= d);
    }
    Some(acc as u32)
}

} // verus!
