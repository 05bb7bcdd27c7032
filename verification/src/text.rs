//! Character and text primitives shared by the parsers, the command reader and
//! the matcher. Texts are modelled as `Seq<char>`.

use vstd::prelude::*;
use vstd::string::StrSliceExecFns;

verus! {

/// The ASCII lower-case form of a character, as a code point: `A`–`Z` move to
/// `a`–`z`, every other character stays.
pub open spec fn ascii_fold(c: char) -> u32 {
    if 'A' <= c && c <= 'Z' {
        (c as u32 + 32) as u32
    } else {
        c as u32
    }
}

/// Two texts that differ at most in the case of ASCII letters.
pub open spec fn same_ignoring_case(a: Seq<char>, b: Seq<char>) -> bool {
    &&& a.len() == b.len()
    &&& forall|i: int| 0 <= i < a.len() ==> ascii_fold(#[trigger] a[i]) == ascii_fold(b[i])
}

/// Whether a character is whitespace: the characters with the Unicode
/// property `White_Space`, which are the tab, the line and page breaks and
/// the blank of ASCII, the next-line sign, the no-break blank, the Ogham
/// space mark, the blanks of fixed width, the line and the paragraph
/// separator, the narrow no-break blank, the mathematical blank and the
/// ideographic blank.
pub open spec fn white_space(c: char) -> bool {
    let code = c as u32;
    ||| 0x09 <= code <= 0x0D
    ||| code == 0x20
    ||| code == 0x85
    ||| code == 0xA0
    ||| code == 0x1680
    ||| 0x2000 <= code <= 0x200A
    ||| code == 0x2028
    ||| code == 0x2029
    ||| code == 0x202F
    ||| code == 0x205F
    ||| code == 0x3000
}

/// The first position at or after `from` that holds no whitespace, or the
/// length of `s` when only whitespace follows.
pub open spec fn skip_space(s: Seq<char>, from: int) -> int
    decreases s.len() - from,
{
    if 0 <= from < s.len() && white_space(s[from]) {
        skip_space(s, from + 1)
    } else {
        from
    }
}

/// The end of the last non-whitespace character before `to`, never below
/// `low`.
pub open spec fn drop_space(s: Seq<char>, low: int, to: int) -> int
    decreases to - low,
{
    if low < to <= s.len() && white_space(s[to - 1]) {
        drop_space(s, low, to - 1)
    } else {
        to
    }
}

/// `s` without its leading and trailing whitespace.
pub open spec fn trimmed(s: Seq<char>) -> Seq<char> {
    let start = skip_space(s, 0);
    s.subrange(start, drop_space(s, start, s.len() as int))
}

/// The first position at or after `from` that holds `c`, or the length of `s`
/// when `c` does not occur there.
pub open spec fn first_index(s: Seq<char>, c: char, from: int) -> int
    decreases s.len() - from,
{
    if 0 <= from < s.len() && s[from] != c {
        first_index(s, c, from + 1)
    } else {
        from
    }
}

/// `skip_space` stays inside the text, passes only whitespace and stops at a
/// character that is none.
pub proof fn lemma_skip_space(s: Seq<char>, from: int)
    requires
        0 <= from <= s.len(),
    ensures
        from <= skip_space(s, from) <= s.len(),
        forall|i: int| from <= i < skip_space(s, from) ==> white_space(#[trigger] s[i]),
        skip_space(s, from) < s.len() ==> !white_space(s[skip_space(s, from)]),
    decreases s.len() - from,
{
    if from < s.len() && white_space(s[from]) {
        lemma_skip_space(s, from + 1);
    }
}

/// `drop_space` stays between `low` and `to`, passes only whitespace and stops
/// behind a character that is none.
pub proof fn lemma_drop_space(s: Seq<char>, low: int, to: int)
    requires
        0 <= low <= to <= s.len(),
    ensures
        low <= drop_space(s, low, to) <= to,
        forall|i: int| drop_space(s, low, to) <= i < to ==> white_space(#[trigger] s[i]),
        low < drop_space(s, low, to) ==> !white_space(s[drop_space(s, low, to) - 1]),
    decreases to - low,
{
    if low < to && white_space(s[to - 1]) {
        lemma_drop_space(s, low, to - 1);
    }
}

/// `first_index` stays inside the text, passes no `c` and stops at one.
pub proof fn lemma_first_index(s: Seq<char>, c: char, from: int)
    requires
        0 <= from <= s.len(),
    ensures
        from <= first_index(s, c, from) <= s.len(),
        forall|i: int| from <= i < first_index(s, c, from) ==> #[trigger] s[i] != c,
        first_index(s, c, from) < s.len() ==> s[first_index(s, c, from)] == c,
    decreases s.len() - from,
{
    if from < s.len() && s[from] != c {
        lemma_first_index(s, c, from + 1);
    }
}

/// What trimming does: `trimmed(s)` is the part of `s` from `skip_space(s, 0)`
/// on that is as long as `trimmed(s)`; everything before and behind that part
/// is whitespace; the part neither begins nor ends with whitespace; only a
/// text of nothing but whitespace trims to nothing; and trimming again
/// changes nothing.
pub proof fn lemma_trimmed(s: Seq<char>)
    ensures
        0 <= skip_space(s, 0) <= skip_space(s, 0) + trimmed(s).len() <= s.len(),
        trimmed(s) == s.subrange(skip_space(s, 0), skip_space(s, 0) + trimmed(s).len()),
        forall|i: int| 0 <= i < skip_space(s, 0) ==> white_space(#[trigger] s[i]),
        forall|i: int|
            skip_space(s, 0) + trimmed(s).len() <= i < s.len() ==> white_space(#[trigger] s[i]),
        trimmed(s).len() > 0 ==> !white_space(trimmed(s).first()) && !white_space(
            trimmed(s).last(),
        ),
        trimmed(s).len() == 0 <==> (forall|i: int| 0 <= i < s.len() ==> white_space(#[trigger] s[i])),
        trimmed(trimmed(s)) == trimmed(s),
{
    lemma_skip_space(s, 0);
    lemma_drop_space(s, skip_space(s, 0), s.len() as int);
}

/// Computes [`ascii_fold`].
pub fn fold_char(c: char) -> (code: u32)
    ensures
        code == ascii_fold(c),
{
    if 'A' <= c && c <= 'Z' {
        c as u32 + 32
    } else {
        c as u32
    }
}

/// Computes [`white_space`].
pub fn is_whitespace(c: char) -> (yes: bool)
    ensures
        yes == white_space(c),
{
    let code: u32 = c as u32;
    (0x09 <= code && code <= 0x0D) || code == 0x20 || code == 0x85 || code == 0xA0 || code
        == 0x1680 || (0x2000 <= code && code <= 0x200A) || code == 0x2028 || code == 0x2029
        || code == 0x202F || code == 0x205F || code == 0x3000
}

/// The characters of a string slice, in order.
pub fn chars_of(s: &str) -> (chars: Vec<char>)
    ensures
        chars@ == s@,
{
    let mut chars: Vec<char> = Vec::new();
    for c in it: s.chars()
        invariant
            chars@ == s@.take(it.index() as int),
            it.seq() == s@,
    {
        chars.push(c);
    }
    chars
}

/// Position of the first non-whitespace character at or after `from`.
pub fn skip_space_from(chars: &Vec<char>, from: usize) -> (at: usize)
    ensures
        at == skip_space(chars@, from as int),
        from <= at,
        from <= chars.len() ==> at <= chars.len(),
{
    let mut at: usize = from;
    while at < chars.len() && is_whitespace(chars[at])
        invariant
            from <= at,
            from <= chars.len() ==> at <= chars.len(),
            skip_space(chars@, from as int) == skip_space(chars@, at as int),
        decreases chars.len() - at,
    {
        at += 1;
    }
    at
}

/// End of the last non-whitespace character before `to`, not below `low`.
pub fn drop_space_to(chars: &Vec<char>, low: usize, to: usize) -> (end: usize)
    ensures
        end == drop_space(chars@, low as int, to as int),
        end <= to,
        low <= to ==> low <= end,
{
    let mut end: usize = to;
    while low < end && end <= chars.len() && is_whitespace(chars[end - 1])
        invariant
            end <= to,
            low <= to ==> low <= end,
            drop_space(chars@, low as int, to as int) == drop_space(chars@, low as int, end as int),
        decreases end,
    {
        end -= 1;
    }
    end
}

/// The slice of `s` that is left when leading and trailing whitespace is
/// taken away.
pub fn trim<'a>(s: &'a str) -> (t: &'a str)
    ensures
        t@ == trimmed(s@),
{
    let chars = chars_of(s);
    let start = skip_space_from(&chars, 0);
    let end = drop_space_to(&chars, start, chars.len());
    s.substring_char(start, end)
}

/// Position of the first `c` at or after `from`, or the length of `chars`
/// where there is none.
pub fn find_char(chars: &Vec<char>, c: char, from: usize) -> (at: usize)
    ensures
        at == first_index(chars@, c, from as int),
        from <= at,
        from <= chars.len() ==> at <= chars.len(),
{
    let mut at: usize = from;
    while at < chars.len() && chars[at] != c
        invariant
            from <= at,
            from <= chars.len() ==> at <= chars.len(),
            first_index(chars@, c, from as int) == first_index(chars@, c, at as int),
        decreases chars.len() - at,
    {
        at += 1;
    }
    at
}

/// Whether two texts hold the same characters.
pub fn text_eq(a: &str, b: &str) -> (same: bool)
    ensures
        same == (a@ == b@),
{
    let x = chars_of(a);
    let y = chars_of(b);
    if x.len() != y.len() {
        return false;
    }
    let mut i: usize = 0;
    while i < x.len()
        invariant
            x.len() == y.len(),
            i <= x.len(),
            x@ == a@,
            y@ == b@,
            forall|j: int| 0 <= j < i ==> x@[j] == y@[j],
        decreases x.len() - i,
    {
        if x[i] != y[i] {
            return false;
        }
        i += 1;
    }
    assert(x@ =~= y@);
    true
}

/// Whether two texts are equal up to the case of ASCII letters.
pub fn eq_ignore_ascii_case(a: &str, b: &str) -> (same: bool)
    ensures
        same == same_ignoring_case(a@, b@),
{
    let x = chars_of(a);
    let y = chars_of(b);
    if x.len() != y.len() {
        return false;
    }
    let mut i: usize = 0;
    while i < x.len()
        invariant
            x.len() == y.len(),
            i <= x.len(),
            x@ == a@,
            y@ == b@,
            forall|j: int| 0 <= j < i ==> ascii_fold(#[trigger] x@[j]) == ascii_fold(y@[j]),
        decreases x.len() - i,
    {
        if fold_char(x[i]) != fold_char(y[i]) {
            return false;
        }
        i += 1;
    }
    true
}

/// Whether `s` begins with `prefix`.
pub fn starts_with(s: &str, prefix: &str) -> (yes: bool)
    ensures
        yes == prefix@.is_prefix_of(s@),
{
    let x = chars_of(s);
    let p = chars_of(prefix);
    if x.len() < p.len() {
        return false;
    }
    let mut i: usize = 0;
    while i < p.len()
        invariant
            p.len() <= x.len(),
            i <= p.len(),
            x@ == s@,
            p@ == prefix@,
            forall|j: int| 0 <= j < i ==> x@[j] == p@[j],
        decreases p.len() - i,
    {
        if x[i] != p[i] {
            return false;
        }
        i += 1;
    }
    true
}

} // verus!
