//! Character-level string helpers with exact specifications.
//!
//! Strings are handled as sequences of `char`s: every function here states its
//! result over `Seq<char>`, the view that vstd gives `str` and `String`.

use vstd::prelude::*;

verus! {

// ---------------------------------------------------------------------------
// Conversions between strings and character vectors
// ---------------------------------------------------------------------------

/// The characters of `s`, in order.
pub fn chars_of(s: &str) -> (v: Vec<char>)
    ensures
        v@ == s@,
{
    let mut v: Vec<char> = Vec::new();
    for c in it: s.chars()
        invariant
            v@ == it.seq().take(it.index() as int),
            it.seq() == s@,
    {
        v.push(c);
    }
    v
}

/// Collects characters into a `String` with `String`'s `FromIterator<&char>`:
/// the string holds exactly these characters, in this order.
#[verifier::external_body]
pub(crate) fn string_of(chars: &[char]) -> (s: String)
    ensures
        s@ == chars@,
{
    chars.iter().collect()
}

// ---------------------------------------------------------------------------
// Character classes
// ---------------------------------------------------------------------------

/// `char::is_whitespace`: the Unicode `White_Space` property.
pub open spec fn is_white_space(c: char) -> bool {
    ||| '\u{9}' <= c <= '\u{d}'
    ||| c == ' '
    ||| c == '\u{85}'
    ||| c == '\u{a0}'
    ||| c == '\u{1680}'
    ||| '\u{2000}' <= c <= '\u{200a}'
    ||| c == '\u{2028}'
    ||| c == '\u{2029}'
    ||| c == '\u{202f}'
    ||| c == '\u{205f}'
    ||| c == '\u{3000}'
}

/// `char::is_whitespace`: membership in the Unicode `White_Space` property.
fn char_is_whitespace(c: char) -> (b: bool)
    ensures
        b == is_white_space(c),
{
    ('\u{9}' <= c && c <= '\u{d}') || c == ' ' || c == '\u{85}' || c == '\u{a0}' || c == '\u{1680}'
        || ('\u{2000}' <= c && c <= '\u{200a}') || c == '\u{2028}' || c == '\u{2029}' || c
        == '\u{202f}' || c == '\u{205f}' || c == '\u{3000}'
}

/// The ASCII decimal digits.
pub open spec fn is_digit(c: char) -> bool {
    '0' <= c <= '9'
}

/// The sets of characters that the trimming and scanning helpers work with.
#[derive(Clone, Copy, Debug, PartialEq, Eq)]
pub enum CharClass {
    /// Unicode white space.
    WhiteSpace,
    /// The character `/`.
    Slash,
    /// A space or a colon.
    SpaceOrColon,
    /// A decimal digit or a minus sign.
    DigitOrMinus,
}

impl CharClass {
    /// Whether `c` belongs to this class.
    pub open spec fn holds(self, c: char) -> bool {
        match self {
            CharClass::WhiteSpace => is_white_space(c),
            CharClass::Slash => c == '/',
            CharClass::SpaceOrColon => c == ' ' || c == ':',
            CharClass::DigitOrMinus => is_digit(c) || c == '-',
        }
    }

    /// Tests whether `c` belongs to this class.
    pub fn contains(&self, c: char) -> (b: bool)
        ensures
            b == self.holds(c),
    {
        match self {
            CharClass::WhiteSpace => char_is_whitespace(c),
            CharClass::Slash => c == '/',
            CharClass::SpaceOrColon => c == ' ' || c == ':',
            CharClass::DigitOrMinus => ('0' <= c && c <= '9') || c == '-',
        }
    }
}

// ---------------------------------------------------------------------------
// Leading and trailing runs
// ---------------------------------------------------------------------------

/// The length of the longest prefix of `s` made of characters of `cls`.
pub open spec fn leading_count(s: Seq<char>, cls: CharClass) -> nat
    decreases s.len(),
{
    if s.len() > 0 && cls.holds(s[0]) {
        1 + leading_count(s.drop_first(), cls)
    } else {
        0
    }
}

/// The length of the longest suffix of `s` made of characters of `cls`.
pub open spec fn trailing_count(s: Seq<char>, cls: CharClass) -> nat
    decreases s.len(),
{
    if s.len() > 0 && cls.holds(s.last()) {
        1 + trailing_count(s.drop_last(), cls)
    } else {
        0
    }
}

/// `s` without its leading characters of `cls` (`trim_start_matches`).
pub open spec fn drop_leading(s: Seq<char>, cls: CharClass) -> Seq<char> {
    s.skip(leading_count(s, cls) as int)
}

/// `s` without its trailing characters of `cls` (`trim_end_matches`).
pub open spec fn drop_trailing(s: Seq<char>, cls: CharClass) -> Seq<char> {
    s.take(s.len() - trailing_count(s, cls))
}

/// The longest prefix of `s` made of characters of `cls`.
pub open spec fn take_while(s: Seq<char>, cls: CharClass) -> Seq<char> {
    s.take(leading_count(s, cls) as int)
}

/// `s` without leading and trailing white space (`str::trim`).
pub open spec fn trim(s: Seq<char>) -> Seq<char> {
    drop_trailing(drop_leading(s, CharClass::WhiteSpace), CharClass::WhiteSpace)
}

/// `s` without trailing white space (`str::trim_end`).
pub open spec fn trim_end(s: Seq<char>) -> Seq<char> {
    drop_trailing(s, CharClass::WhiteSpace)
}

/// A run of `k` class characters at the front, ended by the end of `s` or by
/// a character outside the class, is the whole leading run.
pub proof fn lemma_leading_count(s: Seq<char>, cls: CharClass, k: int)
    requires
        0 <= k <= s.len(),
        forall|j: int| 0 <= j < k ==> cls.holds(#[trigger] s[j]),
        k == s.len() || !cls.holds(s[k]),
    ensures
        leading_count(s, cls) == k,
    decreases k,
{
    if k > 0 {
        let t = s.drop_first();
        assert forall|j: int| 0 <= j < k - 1 implies cls.holds(#[trigger] t[j]) by {
            assert(t[j] == s[j + 1]);
        }
        if k < s.len() {
            assert(t[k - 1] == s[k]);
        }
        lemma_leading_count(t, cls, k - 1);
    }
}

/// A run of `k` class characters at the back, ended by the start of `s` or by
/// a character outside the class, is the whole trailing run.
pub proof fn lemma_trailing_count(s: Seq<char>, cls: CharClass, k: int)
    requires
        0 <= k <= s.len(),
        forall|j: int| s.len() - k <= j < s.len() ==> cls.holds(#[trigger] s[j]),
        k == s.len() || !cls.holds(s[s.len() - k - 1]),
    ensures
        trailing_count(s, cls) == k,
    decreases k,
{
    if k > 0 {
        let t = s.drop_last();
        assert forall|j: int| t.len() - (k - 1) <= j < t.len() implies cls.holds(#[trigger] t[j]) by {
            assert(t[j] == s[j]);
        }
        if k < s.len() {
            assert(t[t.len() - (k - 1) - 1] == s[s.len() - k - 1]);
        }
        lemma_trailing_count(t, cls, k - 1);
    }
}

/// The leading run of `cls` characters in `s[from..]`, as a count.
pub fn count_leading(s: &[char], from: usize, cls: CharClass) -> (n: usize)
    requires
        from <= s@.len(),
    ensures
        n == leading_count(s@.skip(from as int), cls),
        from + n <= s@.len(),
{
    let mut i = from;
    while i < s.len() && cls.contains(s[i])
        invariant
            from <= i <= s@.len(),
            forall|j: int| from <= j < i ==> cls.holds(#[trigger] s@[j]),
        decreases s@.len() - i,
    {
        i = i + 1;
    }
    proof {
        let t = s@.skip(from as int);
        assert forall|j: int| 0 <= j < i - from implies cls.holds(#[trigger] t[j]) by {
            assert(t[j] == s@[from + j]);
        }
        if i < s@.len() {
            assert(t[i - from] == s@[i as int]);
        }
        lemma_leading_count(t, cls, i - from);
    }
    i - from
}

/// The trailing run of `cls` characters in `s[..to]`, as a count.
pub fn count_trailing(s: &[char], to: usize, cls: CharClass) -> (n: usize)
    requires
        to <= s@.len(),
    ensures
        n == trailing_count(s@.take(to as int), cls),
        n <= to,
{
    let mut i = to;
    while i > 0 && cls.contains(s[i - 1])
        invariant
            i <= to <= s@.len(),
            forall|j: int| i <= j < to ==> cls.holds(#[trigger] s@[j]),
        decreases i,
    {
        i = i - 1;
    }
    proof {
        let t = s@.take(to as int);
        assert forall|j: int| t.len() - (to - i) <= j < t.len() implies cls.holds(#[trigger] t[j]) by {
            assert(t[j] == s@[j]);
        }
        if i > 0 {
            assert(t[t.len() - (to - i) - 1] == s@[i - 1]);
        }
        lemma_trailing_count(t, cls, to - i);
    }
    to - i
}

/// Copies `s[from..to]` into a new vector.
pub fn sub_chars(s: &[char], from: usize, to: usize) -> (v: Vec<char>)
    requires
        from <= to <= s@.len(),
    ensures
        v@ == s@.subrange(from as int, to as int),
{
    let mut v: Vec<char> = Vec::new();
    let mut i = from;
    while i < to
        invariant
            from <= i <= to <= s@.len(),
            v@ == s@.subrange(from as int, i as int),
        decreases to - i,
    {
        v.push(s[i]);
        i = i + 1;
    }
    v
}

/// `s` without leading and trailing white space (`str::trim`).
pub fn trim_chars(s: &[char]) -> (v: Vec<char>)
    ensures
        v@ == trim(s@),
{
    let a = count_leading(s, 0, CharClass::WhiteSpace);
    assert(s@.skip(0) == s@);
    let rest = sub_chars(s, a, s.len());
    assert(rest@ == drop_leading(s@, CharClass::WhiteSpace));
    let b = count_trailing(&rest, rest.len(), CharClass::WhiteSpace);
    assert(rest@.take(rest@.len() as int) == rest@);
    sub_chars(&rest, 0, rest.len() - b)
}

// ---------------------------------------------------------------------------
// Prefixes, suffixes and occurrences
// ---------------------------------------------------------------------------

/// `p` is a prefix of `s`.
pub open spec fn is_prefix(p: Seq<char>, s: Seq<char>) -> bool {
    p.len() <= s.len() && s.take(p.len() as int) == p
}

/// `p` is a suffix of `s`.
pub open spec fn is_suffix(p: Seq<char>, s: Seq<char>) -> bool {
    p.len() <= s.len() && s.skip(s.len() - p.len()) == p
}

/// `str::strip_prefix`: what follows `p` in `s`, if `s` starts with `p`.
pub open spec fn strip_prefix(s: Seq<char>, p: Seq<char>) -> Option<Seq<char>> {
    if is_prefix(p, s) {
        Some(s.skip(p.len() as int))
    } else {
        None
    }
}

/// `str::strip_suffix`: what precedes `p` in `s`, if `s` ends with `p`.
pub open spec fn strip_suffix(s: Seq<char>, p: Seq<char>) -> Option<Seq<char>> {
    if is_suffix(p, s) {
        Some(s.take(s.len() - p.len()))
    } else {
        None
    }
}

/// `p` occurs in `s` starting at index `i`.
pub open spec fn occurs_at(s: Seq<char>, p: Seq<char>, i: int) -> bool {
    0 <= i && i + p.len() <= s.len() && s.subrange(i, i + p.len()) == p
}

/// `str::find`: the index of the first occurrence of `p` in `s`.
pub open spec fn first_occurrence(s: Seq<char>, p: Seq<char>) -> Option<int> {
    if exists|i: int| occurs_at(s, p, i) {
        Some(choose|i: int| occurs_at(s, p, i) && forall|j: int| 0 <= j < i ==> !occurs_at(s, p, j))
    } else {
        None
    }
}

/// `str::contains`: `p` occurs somewhere in `s`.
pub open spec fn contains(s: Seq<char>, p: Seq<char>) -> bool {
    exists|i: int| occurs_at(s, p, i)
}

/// Whether `p` occurs in `s` at index `at`.
pub fn matches_at(s: &[char], p: &[char], at: usize) -> (b: bool)
    ensures
        b == occurs_at(s@, p@, at as int),
{
    if at > s.len() || p.len() > s.len() - at {
        return false;
    }
    let mut k: usize = 0;
    while k < p.len()
        invariant
            at + p@.len() <= s@.len(),
            s@.len() == s.len(),
            k <= p@.len(),
            forall|j: int| 0 <= j < k ==> s@[at + j] == p@[j],
        decreases p@.len() - k,
    {
        if s[at + k] != p[k] {
            assert(s@.subrange(at as int, at + p@.len())[k as int] != p@[k as int]);
            return false;
        }
        k = k + 1;
    }
    assert(s@.subrange(at as int, at + p@.len()) =~= p@);
    true
}

/// Whether `s` starts with `p`.
pub fn starts_with(s: &[char], p: &[char]) -> (b: bool)
    ensures
        b == is_prefix(p@, s@),
{
    let b = matches_at(s, p, 0);
    proof {
        if p@.len() <= s@.len() {
            assert(s@.subrange(0, p@.len() as int) == s@.take(p@.len() as int));
        }
    }
    b
}

/// Whether `s` ends with `p`.
pub fn ends_with(s: &[char], p: &[char]) -> (b: bool)
    ensures
        b == is_suffix(p@, s@),
{
    if p.len() > s.len() {
        return false;
    }
    let b = matches_at(s, p, s.len() - p.len());
    proof {
        assert(s@.subrange(s@.len() - p@.len(), s@.len() as int) == s@.skip(s@.len() - p@.len()));
    }
    b
}

/// The first index at which `p` occurs in `s`, if any (`str::find`).
pub fn find(s: &[char], p: &[char]) -> (r: Option<usize>)
    ensures
        r matches Some(i) ==> first_occurrence(s@, p@) == Some(i as int) && occurs_at(s@, p@, i as int)
            && forall|j: int| 0 <= j < i ==> !occurs_at(s@, p@, j),
        r is None ==> first_occurrence(s@, p@) is None && forall|j: int| !occurs_at(s@, p@, j),
{
    let mut i: usize = 0;
    loop
        invariant
            i <= s@.len(),
            forall|j: int| 0 <= j < i ==> !occurs_at(s@, p@, j),
        decreases s@.len() - i,
    {
        if matches_at(s, p, i) {
            proof {
                let w = choose|w: int| occurs_at(s@, p@, w) && forall|j: int| 0 <= j < w ==> !occurs_at(s@, p@, j);
                assert(occurs_at(s@, p@, i as int) && forall|j: int| 0 <= j < i ==> !occurs_at(s@, p@, j));
                if w < i {
                    assert(!occurs_at(s@, p@, w));
                } else if w > i {
                    assert(!occurs_at(s@, p@, i as int));
                }
            }
            return Some(i);
        }
        if i == s.len() {
            proof {
                assert forall|j: int| !occurs_at(s@, p@, j) by {
                    if 0 <= j <= i {
                    } else if j > i {
                        assert(j > s@.len());
                    }
                }
            }
            return None;
        }
        i = i + 1;
    }
}

/// Whether `p` occurs anywhere in `s` (`str::contains`).
pub fn contains_chars(s: &[char], p: &[char]) -> (b: bool)
    ensures
        b == contains(s@, p@),
{
    match find(s, p) {
        Some(i) => {
            proof {
                let w = choose|w: int| occurs_at(s@, p@, w) && forall|j: int| 0 <= j < w ==> !occurs_at(s@, p@, j);
            }
            true
        },
        None => false,
    }
}

/// What follows `p` in `s`, if `s` starts with `p` (`str::strip_prefix`).
pub fn strip_prefix_chars(s: &[char], p: &[char]) -> (r: Option<Vec<char>>)
    ensures
        r matches Some(v) ==> strip_prefix(s@, p@) == Some(v@),
        r is None ==> strip_prefix(s@, p@) is None,
{
    if starts_with(s, p) {
        Some(sub_chars(s, p.len(), s.len()))
    } else {
        None
    }
}

/// What precedes `p` in `s`, if `s` ends with `p` (`str::strip_suffix`).
pub fn strip_suffix_chars(s: &[char], p: &[char]) -> (r: Option<Vec<char>>)
    ensures
        r matches Some(v) ==> strip_suffix(s@, p@) == Some(v@),
        r is None ==> strip_suffix(s@, p@) is None,
{
    if ends_with(s, p) {
        Some(sub_chars(s, 0, s.len() - p.len()))
    } else {
        None
    }
}

/// Appends the characters of `s` to `out`.
pub fn push_str(out: &mut Vec<char>, s: &str)
    ensures
        final(out)@ == old(out)@ + s@,
{
    let mut tail = chars_of(s);
    out.append(&mut tail);
}

/// Appends the characters `s` to `out`.
pub fn push_chars(out: &mut Vec<char>, s: &[char])
    ensures
        final(out)@ == old(out)@ + s@,
{
    let mut tail = sub_chars(s, 0, s.len());
    assert(s@.subrange(0, s@.len() as int) == s@);
    out.append(&mut tail);
}

/// `s` with every `from` replaced by `to`.
pub open spec fn replace_char(s: Seq<char>, from: char, to: char) -> Seq<char> {
    s.map_values(|c: char| if c == from { to } else { c })
}

/// `s` with every `from` replaced by `to` (`str::replace` with one-character
/// pattern and replacement).
pub fn replace_chars(s: &[char], from: char, to: char) -> (v: Vec<char>)
    ensures
        v@ == replace_char(s@, from, to),
{
    let mut v: Vec<char> = Vec::new();
    let mut i: usize = 0;
    while i < s.len()
        invariant
            i <= s@.len(),
            v@ == replace_char(s@.take(i as int), from, to),
        decreases s@.len() - i,
    {
        let c = if s[i] == from { to } else { s[i] };
        v.push(c);
        i = i + 1;
        assert(replace_char(s@.take(i as int), from, to) =~= replace_char(s@.take(i - 1), from, to).push(c));
    }
    assert(s@.take(i as int) =~= s@);
    v
}

// ---------------------------------------------------------------------------
// Decimal numbers
// ---------------------------------------------------------------------------

/// The value of a decimal digit.
pub open spec fn digit_value(c: char) -> nat {
    (c as int - '0' as int) as nat
}

/// Every character of `s` is a decimal digit.
pub open spec fn all_digits(s: Seq<char>) -> bool {
    forall|i: int| 0 <= i < s.len() ==> is_digit(#[trigger] s[i])
}

/// The number that the decimal digits `s` spell.
pub open spec fn decimal_value(s: Seq<char>) -> nat
    decreases s.len(),
{
    if s.len() == 0 {
        0
    } else {
        decimal_value(s.drop_last()) * 10 + digit_value(s.last())
    }
}

/// `s` without one leading `+`, if it has one.
pub open spec fn skip_plus(s: Seq<char>) -> Seq<char> {
    if s.len() > 0 && s[0] == '+' {
        s.drop_first()
    } else {
        s
    }
}

/// `usize::from_str`: an optional `+` followed by at least one decimal digit,
/// nothing else, and a value that fits.
pub open spec fn parse_usize(s: Seq<char>) -> Option<usize> {
    let d = skip_plus(s);
    if d.len() > 0 && all_digits(d) && decimal_value(d) <= usize::MAX {
        Some(decimal_value(d) as usize)
    } else {
        None
    }
}

/// `i64::from_str`: an optional `+` or `-` followed by at least one decimal
/// digit, nothing else, and a value that fits.
pub open spec fn parse_i64(s: Seq<char>) -> Option<i64> {
    if s.len() > 0 && s[0] == '-' {
        let d = s.drop_first();
        if d.len() > 0 && all_digits(d) && decimal_value(d) <= 0x8000_0000_0000_0000 {
            Some((-(decimal_value(d) as int)) as i64)
        } else {
            None
        }
    } else {
        let d = skip_plus(s);
        if d.len() > 0 && all_digits(d) && decimal_value(d) <= i64::MAX {
            Some(decimal_value(d) as i64)
        } else {
            None
        }
    }
}

/// A prefix of a digit string spells at most the whole string's value.
proof fn lemma_decimal_prefix_le(t: Seq<char>, k: int)
    requires
        0 <= k <= t.len(),
    ensures
        decimal_value(t.take(k)) <= decimal_value(t),
    decreases t.len(),
{
    if k < t.len() {
        let u = t.drop_last();
        assert(u.take(k) =~= t.take(k));
        lemma_decimal_prefix_le(u, k);
    } else {
        assert(t.take(k) =~= t);
    }
}

/// The value of the digits `s[from..]`, if they are at least one decimal digit,
/// nothing else, and spell a number of at most `limit`.
fn decimal_at_most(s: &[char], from: usize, limit: u64) -> (r: Option<u64>)
    requires
        from <= s@.len(),
    ensures
        ({
            let d = s@.skip(from as int);
            r == (if d.len() > 0 && all_digits(d) && decimal_value(d) <= limit {
                Some(decimal_value(d) as u64)
            } else {
                None
            })
        }),
{
    let ghost d = s@.skip(from as int);
    if from >= s.len() {
        return None;
    }
    let mut acc: u128 = 0;
    let mut i = from;
    while i < s.len()
        invariant
            from <= i <= s@.len(),
            d == s@.skip(from as int),
            all_digits(d.take(i - from)),
            acc == decimal_value(d.take(i - from)),
            acc <= limit,
        decreases s@.len() - i,
    {
        let c = s[i];
        if !('0' <= c && c <= '9') {
            assert(d[i - from] == c);
            return None;
        }
        let digit = (c as u32 - '0' as u32) as u128;
        proof {
            let before = d.take(i - from);
            let after = d.take(i + 1 - from);
            assert(after.drop_last() =~= before);
            assert(after.last() == c);
            assert forall|j: int| 0 <= j < after.len() implies is_digit(#[trigger] after[j]) by {
                if j < before.len() {
                    assert(after[j] == before[j]);
                }
            }
        }
        acc = acc * 10 + digit;
        i = i + 1;
        if acc > limit as u128 {
            proof {
                if all_digits(d) {
                    lemma_decimal_prefix_le(d, i - from);
                }
            }
            return None;
        }
    }
    assert(d.take(i - from) =~= d);
    Some(acc as u64)
}

/// Reads `s` as a `usize` (`str::parse::<usize>`).
pub fn parse_usize_chars(s: &[char]) -> (r: Option<usize>)
    ensures
        r == parse_usize(s@),
{
    let from: usize = if s.len() > 0 && s[0] == '+' { 1 } else { 0 };
    assert(s@.skip(from as int) == skip_plus(s@));
    match decimal_at_most(s, from, usize::MAX as u64) {
        Some(v) => Some(v as usize),
        None => None,
    }
}

/// Reads `s` as an `i64` (`str::parse::<i64>`).
pub fn parse_i64_chars(s: &[char]) -> (r: Option<i64>)
    ensures
        r == parse_i64(s@),
{
    if s.len() > 0 && s[0] == '-' {
        assert(s@.skip(1) == s@.drop_first());
        match decimal_at_most(s, 1, 0x8000_0000_0000_0000u64) {
            Some(v) => {
                let neg: i128 = -(v as i128);
                Some(neg as i64)
            },
            None => None,
        }
    } else {
        let from: usize = if s.len() > 0 && s[0] == '+' { 1 } else { 0 };
        assert(s@.skip(from as int) == skip_plus(s@));
        match decimal_at_most(s, from, i64::MAX as u64) {
            Some(v) => Some(v as i64),
            None => None,
        }
    }
}

/// The character of the decimal digit `d`.
pub open spec fn digit_char(d: nat) -> char {
    (d + '0' as nat) as char
}

/// The decimal representation of `n`, without leading zeros.
pub open spec fn decimal_text(n: nat) -> Seq<char>
    decreases n,
{
    if n < 10 {
        seq![digit_char(n)]
    } else {
        decimal_text(n / 10).push(digit_char(n % 10))
    }
}

/// The decimal representation of `x`, with a `-` when it is negative
/// (`i64`'s `Display`).
pub open spec fn signed_decimal_text(x: int) -> Seq<char> {
    if x < 0 {
        seq!['-'] + decimal_text((-x) as nat)
    } else {
        decimal_text(x as nat)
    }
}

/// Appends the decimal representation of `n` to `out`.
pub fn push_decimal(out: &mut Vec<char>, n: u64)
    ensures
        final(out)@ == old(out)@ + decimal_text(n as nat),
    decreases n,
{
    if n >= 10 {
        push_decimal(out, n / 10);
    }
    let d = (n % 10) as u8;
    out.push((d + 48u8) as char);
    assert(((d + 48u8) as char) == digit_char((n % 10) as nat));
}

/// Appends the decimal representation of `x`, with a `-` when it is negative.
pub fn push_signed_decimal(out: &mut Vec<char>, x: i64)
    ensures
        final(out)@ == old(out)@ + signed_decimal_text(x as int),
{
    if x < 0 {
        out.push('-');
        let magnitude: i128 = -(x as i128);
        push_decimal(out, magnitude as u64);
        assert(out@ =~= old(out)@ + signed_decimal_text(x as int));
    } else {
        push_decimal(out, x as u64);
    }
}

// ---------------------------------------------------------------------------
// Laws of the decimal helpers
// ---------------------------------------------------------------------------

/// The digit characters are the decimal digits, each worth its number.
pub proof fn lemma_digit_char(d: nat)
    requires
        d < 10,
    ensures
        is_digit(digit_char(d)),
        digit_value(digit_char(d)) == d,
{
    assert(digit_char(d) as int == d + 48);
}

/// The decimal representation of `n` is a non-empty run of digits that
/// spells `n`.
pub proof fn lemma_decimal_text(n: nat)
    ensures
        decimal_text(n).len() > 0,
        all_digits(decimal_text(n)),
        decimal_value(decimal_text(n)) == n,
    decreases n,
{
    if n < 10 {
        lemma_digit_char(n);
        let t = decimal_text(n);
        assert(t.drop_last() =~= Seq::<char>::empty());
        assert(t.last() == digit_char(n));
        assert(decimal_value(t) == decimal_value(t.drop_last()) * 10 + digit_value(t.last()));
    } else {
        lemma_decimal_text(n / 10);
        lemma_digit_char(n % 10);
        let t = decimal_text(n);
        let u = decimal_text(n / 10);
        assert(t.drop_last() =~= u);
        assert(t.last() == digit_char(n % 10));
        assert(decimal_value(t) == decimal_value(u) * 10 + digit_value(t.last()));
        assert((n / 10) * 10 + n % 10 == n) by (nonlinear_arith);
        assert forall|i: int| 0 <= i < t.len() implies is_digit(#[trigger] t[i]) by {
            if i < u.len() {
                assert(t[i] == u[i]);
            }
        }
    }
}

/// Stripping a prefix or a suffix splits the text exactly: what is left,
/// put back together with the prefix or suffix, is the whole text, and there
/// is something left exactly when the text starts or ends with it.
pub proof fn law_strip_splits_text(s: Seq<char>, p: Seq<char>, r: Seq<char>)
    ensures
        strip_prefix(s, p) == Some(r) <==> s == p + r,
        strip_suffix(s, p) == Some(r) <==> s == r + p,
{
    if s == p + r {
        assert(s.take(p.len() as int) =~= p);
        assert(s.skip(p.len() as int) =~= r);
    }
    if strip_prefix(s, p) == Some(r) {
        assert(s =~= p + r);
    }
    if s == r + p {
        assert(s.skip(s.len() - p.len()) =~= p);
        assert(s.take(s.len() - p.len()) =~= r);
    }
    if strip_suffix(s, p) == Some(r) {
        assert(s =~= r + p);
    }
}

/// Reading the decimal representation of a `usize` gives it back.
pub proof fn law_parse_usize_reads_decimal_text(n: usize)
    ensures
        parse_usize(decimal_text(n as nat)) == Some(n),
{
    let t = decimal_text(n as nat);
    lemma_decimal_text(n as nat);
    assert(is_digit(t[0]));
    assert(skip_plus(t) == t);
}

/// Reading the signed decimal representation of an `i64` gives it back.
pub proof fn law_parse_i64_reads_signed_decimal_text(n: i64)
    ensures
        parse_i64(signed_decimal_text(n as int)) == Some(n),
{
    let t = signed_decimal_text(n as int);
    if n < 0 {
        let m = (-(n as int)) as nat;
        lemma_decimal_text(m);
        assert(t.drop_first() =~= decimal_text(m));
        assert(t[0] == '-');
    } else {
        lemma_decimal_text(n as nat);
        assert(is_digit(t[0]));
        assert(skip_plus(t) == t);
    }
}

/// What the leading run is: every character before it belongs to the class,
/// and the one that ends it, if any, does not.
pub proof fn lemma_leading_count_props(s: Seq<char>, cls: CharClass)
    ensures
        leading_count(s, cls) <= s.len(),
        forall|j: int| 0 <= j < leading_count(s, cls) ==> cls.holds(#[trigger] s[j]),
        leading_count(s, cls) < s.len() ==> !cls.holds(s[leading_count(s, cls) as int]),
    decreases s.len(),
{
    if s.len() > 0 && cls.holds(s[0]) {
        let t = s.drop_first();
        lemma_leading_count_props(t, cls);
        assert forall|j: int| 0 <= j < leading_count(s, cls) implies cls.holds(#[trigger] s[j]) by {
            if j > 0 {
                assert(s[j] == t[j - 1]);
            }
        }
        if leading_count(s, cls) < s.len() {
            assert(s[leading_count(s, cls) as int] == t[leading_count(t, cls) as int]);
        }
    }
}

/// What the trailing run is: every character in it belongs to the class,
/// and the one before it, if any, does not.
pub proof fn lemma_trailing_count_props(s: Seq<char>, cls: CharClass)
    ensures
        trailing_count(s, cls) <= s.len(),
        forall|j: int| s.len() - trailing_count(s, cls) <= j < s.len() ==> cls.holds(#[trigger] s[j]),
        trailing_count(s, cls) < s.len() ==> !cls.holds(s[s.len() - trailing_count(s, cls) - 1]),
    decreases s.len(),
{
    if s.len() > 0 && cls.holds(s.last()) {
        let t = s.drop_last();
        lemma_trailing_count_props(t, cls);
        assert forall|j: int| s.len() - trailing_count(s, cls) <= j < s.len() implies cls.holds(
            #[trigger] s[j],
        ) by {
            if j < s.len() - 1 {
                assert(s[j] == t[j]);
            }
        }
        if trailing_count(s, cls) < s.len() {
            assert(s[s.len() - trailing_count(s, cls) - 1] == t[t.len() - trailing_count(t, cls) - 1]);
        }
    }
}

/// `trim` keeps the middle of `s` between white space: it is a slice of `s`
/// outside of which every character is white space, and which, where not
/// empty, starts and ends with a character that is not.
pub proof fn law_trim_strips_white_space(s: Seq<char>)
    ensures
        exists|a: int, b: int|
            {
                &&& 0 <= a <= b <= s.len()
                &&& trim(s) == s.subrange(a, b)
                &&& forall|i: int|
                    0 <= i < s.len() && !(a <= i < b) ==> is_white_space(#[trigger] s[i])
                &&& a < b ==> !is_white_space(s[a]) && !is_white_space(s[b - 1])
            },
{
    let ws = CharClass::WhiteSpace;
    lemma_leading_count_props(s, ws);
    let a = leading_count(s, ws) as int;
    let t = s.skip(a);
    lemma_trailing_count_props(t, ws);
    let c = trailing_count(t, ws) as int;
    let b = s.len() - c;
    assert(trim(s) =~= s.subrange(a, b));
    assert forall|i: int| 0 <= i < s.len() && !(a <= i < b) implies is_white_space(#[trigger] s[i]) by {
        if i >= b {
            assert(s[i] == t[i - a]);
            assert(ws.holds(t[i - a]));
        } else {
            assert(ws.holds(s[i]));
        }
    }
    if a < b {
        assert(!ws.holds(s[a]));
        assert(s[b - 1] == t[t.len() - c - 1]);
    }
}

} // verus!
