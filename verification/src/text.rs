//! Character-level text model: the string operations that the report and
//! warning logic relies on, stated over `Seq<char>` and implemented on
//! vectors of characters.
use vstd::prelude::*;

verus! {

/// Unicode `White_Space`, the set that `char::is_whitespace` and the `trim`
/// family of `str` use.
pub open spec fn is_ws(c: char) -> bool {
    ||| c == '\t'
    ||| c == '\n'
    ||| c == '\u{0B}'
    ||| c == '\u{0C}'
    ||| c == '\r'
    ||| c == ' '
    ||| c == '\u{85}'
    ||| c == '\u{A0}'
    ||| c == '\u{1680}'
    ||| ('\u{2000}' <= c && c <= '\u{200A}')
    ||| c == '\u{2028}'
    ||| c == '\u{2029}'
    ||| c == '\u{202F}'
    ||| c == '\u{205F}'
    ||| c == '\u{3000}'
}

/// The text with leading whitespace removed (`str::trim_start`).
pub open spec fn trim_start(s: Seq<char>) -> Seq<char>
    decreases s.len(),
{
    if s.len() > 0 && is_ws(s[0]) {
        trim_start(s.drop_first())
    } else {
        s
    }
}

/// The text with trailing whitespace removed (`str::trim_end`).
pub open spec fn trim_end(s: Seq<char>) -> Seq<char>
    decreases s.len(),
{
    if s.len() > 0 && is_ws(s.last()) {
        trim_end(s.drop_last())
    } else {
        s
    }
}

/// The text with whitespace removed on both sides (`str::trim`).
pub open spec fn trim(s: Seq<char>) -> Seq<char> {
    trim_end(trim_start(s))
}

/// Every character of the text is whitespace (so `trim` leaves it empty).
pub open spec fn all_ws(s: Seq<char>) -> bool {
    forall|i: int| 0 <= i < s.len() ==> is_ws(#[trigger] s[i])
}

/// `needle` occurs in `s` at position `i`.
pub open spec fn occurs_at(s: Seq<char>, i: int, needle: Seq<char>) -> bool {
    0 <= i && i + needle.len() <= s.len() && s.subrange(i, i + needle.len()) == needle
}

/// `s` begins with `prefix` (`str::starts_with`).
pub open spec fn starts_with(s: Seq<char>, prefix: Seq<char>) -> bool {
    occurs_at(s, 0, prefix)
}

/// `needle` occurs somewhere in `s` (`str::contains`).
pub open spec fn contains(s: Seq<char>, needle: Seq<char>) -> bool {
    exists|i: int| occurs_at(s, i, needle)
}

/// ASCII lower-casing of one character (`char::to_ascii_lowercase`).
pub open spec fn ascii_lower_char(c: char) -> char {
    if 'A' <= c && c <= 'Z' {
        ((c as u32) + 32) as char
    } else {
        c
    }
}

/// ASCII lower-casing of a text (`str::to_ascii_lowercase`).
pub open spec fn ascii_lower(s: Seq<char>) -> Seq<char> {
    s.map_values(|c: char| ascii_lower_char(c))
}

/// Appends one character to a string.
#[verifier::external_body]
fn push_char(s: &mut String, c: char)
    ensures
        final(s)@ == old(s)@.push(c),
{
    s.push(c);
}

/// The characters of a string slice, in order.
pub fn chars_of(s: &str) -> (res: Vec<char>)
    ensures
        res@ == s@,
{
    let mut res: Vec<char> = Vec::new();
    for c in it: s.chars()
        invariant
            it.seq() == s@,
            res@ == it.seq().take(it.index() as int),
    {
        res.push(c);
    }
    res
}


/// A string holding exactly the given characters.
pub fn string_from_chars(v: &[char]) -> (res: String)
    ensures
        res@ == v@,
{
    let mut res = String::new();
    let mut i: usize = 0;
    while i < v.len()
        invariant
            i <= v@.len(),
            res@ == v@.take(i as int),
        decreases v@.len() - i,
    {
        push_char(&mut res, v[i]);
        i = i + 1;
        assert(v@.take(i as int) == v@.take(i - 1).push(v@[i - 1]));
    }
    assert(v@.take(v@.len() as int) == v@);
    res
}

/// Whether `c` is whitespace (`char::is_whitespace`).
pub fn is_whitespace(c: char) -> (r: bool)
    ensures
        r == is_ws(c),
{
    c == '\t' || c == '\n' || c == '\u{0B}' || c == '\u{0C}' || c == '\r' || c == ' '
        || c == '\u{85}' || c == '\u{A0}' || c == '\u{1680}' || ('\u{2000}' <= c && c
        <= '\u{200A}') || c == '\u{2028}' || c == '\u{2029}' || c == '\u{202F}' || c
        == '\u{205F}' || c == '\u{3000}'
}

/// Whether `needle` occurs in `s` starting at index `i`.
pub fn occurs_at_index(s: &[char], i: usize, needle: &[char]) -> (r: bool)
    ensures
        r == occurs_at(s@, i as int, needle@),
{
    if i > s.len() || needle.len() > s.len() - i {
        return false;
    }
    let mut k: usize = 0;
    while k < needle.len()
        invariant
            i + needle@.len() <= s@.len(),
            i + needle.len() <= s.len(),
            k <= needle@.len(),
            forall|m: int| 0 <= m < k ==> s@[i + m] == needle@[m],
        decreases needle@.len() - k,
    {
        if s[i + k] != needle[k] {
            assert(s@.subrange(i as int, i + needle@.len())[k as int] != needle@[k as int]);
            return false;
        }
        k = k + 1;
    }
    assert(s@.subrange(i as int, i + needle@.len()) == needle@);
    true
}

/// Whether `s` begins with `prefix`.
pub fn starts_with_chars(s: &[char], prefix: &[char]) -> (r: bool)
    ensures
        r == starts_with(s@, prefix@),
{
    occurs_at_index(s, 0, prefix)
}

/// Whether `needle` occurs anywhere in `s`.
pub fn contains_chars(s: &[char], needle: &[char]) -> (r: bool)
    ensures
        r == contains(s@, needle@),
{
    if needle.len() > s.len() {
        assert forall|i: int| !occurs_at(s@, i, needle@) by {}
        return false;
    }
    let last = s.len() - needle.len();
    let mut i: usize = 0;
    loop
        invariant
            last == s@.len() - needle@.len(),
            i <= last,
            forall|j: int| 0 <= j < i ==> !occurs_at(s@, j, needle@),
        ensures
            forall|j: int| 0 <= j <= last ==> !occurs_at(s@, j, needle@),
        decreases last - i,
    {
        if occurs_at_index(s, i, needle) {
            return true;
        }
        if i == last {
            break;
        }
        i = i + 1;
    }
    assert forall|j: int| !occurs_at(s@, j, needle@) by {
        if 0 <= j <= last {
        }
    }
    false
}

/// Whether the text of `s` contains the text of `needle`.
pub fn str_contains(s: &str, needle: &str) -> (r: bool)
    ensures
        r == contains(s@, needle@),
{
    let sv = chars_of(s);
    let nv = chars_of(needle);
    contains_chars(sv.as_slice(), nv.as_slice())
}

proof fn lemma_trim_start_skip(s: Seq<char>, i: int)
    requires
        0 <= i <= s.len(),
        forall|j: int| 0 <= j < i ==> is_ws(#[trigger] s[j]),
        i == s.len() || !is_ws(s[i]),
    ensures
        trim_start(s) == s.skip(i),
    decreases i,
{
    if i == 0 {
        assert(s.skip(0) == s);
    } else {
        let t = s.drop_first();
        assert forall|j: int| 0 <= j < i - 1 implies is_ws(#[trigger] t[j]) by {
            assert(t[j] == s[j + 1]);
        }
        lemma_trim_start_skip(t, i - 1);
        assert(t.skip(i - 1) == s.skip(i));
    }
}

proof fn lemma_trim_end_take(s: Seq<char>, i: int)
    requires
        0 <= i <= s.len(),
        forall|j: int| i <= j < s.len() ==> is_ws(#[trigger] s[j]),
        i == 0 || !is_ws(s[i - 1]),
    ensures
        trim_end(s) == s.take(i),
    decreases s.len() - i,
{
    if i == s.len() {
        assert(s.take(i) == s);
    } else {
        let t = s.drop_last();
        assert forall|j: int| i <= j < t.len() implies is_ws(#[trigger] t[j]) by {
            assert(t[j] == s[j]);
        }
        lemma_trim_end_take(t, i);
        assert(t.take(i) == s.take(i));
    }
}

/// The index of the first character that is not whitespace (or the length).
pub fn trim_start_index(s: &[char]) -> (i: usize)
    ensures
        i <= s@.len(),
        trim_start(s@) == s@.skip(i as int),
{
    let mut i: usize = 0;
    while i < s.len() && is_whitespace(s[i])
        invariant
            i <= s@.len(),
            forall|j: int| 0 <= j < i ==> is_ws(#[trigger] s@[j]),
        decreases s@.len() - i,
    {
        i = i + 1;
    }
    proof {
        lemma_trim_start_skip(s@, i as int);
    }
    i
}

/// The index just past the last character that is not whitespace (or 0).
pub fn trim_end_index(s: &[char]) -> (i: usize)
    ensures
        i <= s@.len(),
        trim_end(s@) == s@.take(i as int),
{
    let mut i: usize = s.len();
    while i > 0 && is_whitespace(s[i - 1])
        invariant
            i <= s@.len(),
            forall|j: int| i <= j < s@.len() ==> is_ws(#[trigger] s@[j]),
        decreases i,
    {
        i = i - 1;
    }
    proof {
        lemma_trim_end_take(s@, i as int);
    }
    i
}

/// A trimmed text has no whitespace at either end.
pub proof fn lemma_trim_bounds(s: Seq<char>)
    ensures
        trim(s).len() > 0 ==> !is_ws(trim(s)[0]) && !is_ws(trim(s).last()),
        trim_start(s).len() > 0 ==> !is_ws(trim_start(s)[0]),
        trim_end(s).len() > 0 ==> !is_ws(trim_end(s).last()),
{
    lemma_trim_start_first(s);
    lemma_trim_end_last(s);
    lemma_trim_end_last(trim_start(s));
    lemma_trim_end_keeps_first(trim_start(s));
}

proof fn lemma_trim_start_first(s: Seq<char>)
    ensures
        trim_start(s).len() > 0 ==> !is_ws(trim_start(s)[0]),
    decreases s.len(),
{
    if s.len() > 0 && is_ws(s[0]) {
        lemma_trim_start_first(s.drop_first());
    }
}

proof fn lemma_trim_end_last(s: Seq<char>)
    ensures
        trim_end(s).len() > 0 ==> !is_ws(trim_end(s).last()),
    decreases s.len(),
{
    if s.len() > 0 && is_ws(s.last()) {
        lemma_trim_end_last(s.drop_last());
    }
}

proof fn lemma_trim_end_keeps_first(s: Seq<char>)
    ensures
        trim_end(s).len() > 0 ==> trim_end(s)[0] == s[0],
        trim_end(s).len() <= s.len(),
    decreases s.len(),
{
    if s.len() > 0 && is_ws(s.last()) {
        lemma_trim_end_keeps_first(s.drop_last());
    }
}

/// The text with whitespace removed on both sides.
pub fn trim_chars(s: &[char]) -> (res: Vec<char>)
    ensures
        res@ == trim(s@),
{
    let a = trim_start_index(s);
    let t = slice_from(s, a);
    let b = trim_end_index(t.as_slice());
    slice_range(t.as_slice(), 0, b)
}

/// The characters of `s` from index `start` on.
pub fn slice_from(s: &[char], start: usize) -> (res: Vec<char>)
    requires
        start <= s@.len(),
    ensures
        res@ == s@.skip(start as int),
{
    slice_range(s, start, s.len())
}

/// The characters of `s` in `[start, end)`.
pub fn slice_range(s: &[char], start: usize, end: usize) -> (res: Vec<char>)
    requires
        start <= end <= s@.len(),
    ensures
        res@ == s@.subrange(start as int, end as int),
{
    let mut res: Vec<char> = Vec::new();
    let mut i: usize = start;
    while i < end
        invariant
            start <= i <= end <= s@.len(),
            res@ == s@.subrange(start as int, i as int),
        decreases end - i,
    {
        res.push(s[i]);
        i = i + 1;
        assert(res@ == s@.subrange(start as int, i as int));
    }
    res
}

/// ASCII lower-casing of one character.
pub fn lower_char(c: char) -> (r: char)
    ensures
        r == ascii_lower_char(c),
{
    if 'A' <= c && c <= 'Z' {
        let code: u32 = (c as u32) + 32;
        let b: u8 = code as u8;
        b as char
    } else {
        c
    }
}

/// ASCII lower-casing of a text.
pub fn lower_chars(s: &[char]) -> (res: Vec<char>)
    ensures
        res@ == ascii_lower(s@),
{
    let mut res: Vec<char> = Vec::new();
    let mut i: usize = 0;
    while i < s.len()
        invariant
            i <= s@.len(),
            res@.len() == i,
            forall|j: int| 0 <= j < i ==> res@[j] == ascii_lower_char(#[trigger] s@[j]),
        decreases s@.len() - i,
    {
        res.push(lower_char(s[i]));
        i = i + 1;
    }
    assert(res@ == ascii_lower(s@));
    res
}

/// Whether two texts are equal.
pub fn chars_equal(a: &[char], b: &[char]) -> (r: bool)
    ensures
        r == (a@ == b@),
{
    if a.len() != b.len() {
        return false;
    }
    let r = occurs_at_index(a, 0, b);
    assert(a@.subrange(0, b@.len() as int) == a@);
    r
}

/// The decimal digit for `d` in `0..10`.
pub open spec fn digit_char(d: int) -> char {
    if d == 0 {
        '0'
    } else if d == 1 {
        '1'
    } else if d == 2 {
        '2'
    } else if d == 3 {
        '3'
    } else if d == 4 {
        '4'
    } else if d == 5 {
        '5'
    } else if d == 6 {
        '6'
    } else if d == 7 {
        '7'
    } else if d == 8 {
        '8'
    } else {
        '9'
    }
}

/// The decimal notation of a natural number, without leading zeros (what
/// `to_string` gives for an unsigned integer).
pub open spec fn decimal(n: nat) -> Seq<char>
    decreases n,
{
    if n < 10 {
        seq![digit_char(n as int)]
    } else {
        decimal(n / 10).push(digit_char((n % 10) as int))
    }
}

fn digit(d: usize) -> (c: char)
    requires
        d < 10,
    ensures
        c == digit_char(d as int),
{
    if d == 0 {
        '0'
    } else if d == 1 {
        '1'
    } else if d == 2 {
        '2'
    } else if d == 3 {
        '3'
    } else if d == 4 {
        '4'
    } else if d == 5 {
        '5'
    } else if d == 6 {
        '6'
    } else if d == 7 {
        '7'
    } else if d == 8 {
        '8'
    } else {
        '9'
    }
}

fn decimal_chars(n: usize) -> (res: Vec<char>)
    ensures
        res@ == decimal(n as nat),
    decreases n,
{
    if n < 10 {
        let mut v: Vec<char> = Vec::new();
        v.push(digit(n));
        assert(v@ == seq![digit_char(n as int)]);
        v
    } else {
        let mut v = decimal_chars(n / 10);
        v.push(digit(n % 10));
        v
    }
}

/// The decimal notation of `n`.
pub fn decimal_string(n: usize) -> (res: String)
    ensures
        res@ == decimal(n as nat),
{
    let v = decimal_chars(n);
    string_from_chars(v.as_slice())
}

} // verus!
