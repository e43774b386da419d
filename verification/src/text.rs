//! Text as sequences of characters: searching, splitting, trimming and joining.
use vstd::prelude::*;
use vstd::slice::slice_subrange;

verus! {

/// `String::push` appends one character to the end of the text.
pub assume_specification[ String::push ](s: &mut String, c: char)
    ensures
        final(s)@ == old(s)@.push(c),
;

// ---------------------------------------------------------------------------
// Characters
// ---------------------------------------------------------------------------

/// The characters with Unicode's `White_Space` property.
pub open spec fn is_space(c: char) -> bool {
    ||| '\u{9}' <= c <= '\u{d}'
    ||| c == ' '
    ||| c == '\u{85}'
    ||| c == '\u{a0}'
    ||| c == '\u{1680}'
    ||| '\u{2000}' <= c <= '\u{200a}'
    ||| c == '\u{2028}'
    ||| c == '\u{2029}'
    ||| c == '\u{202f}'
    ||| c == '\u{205f}'
    ||| c == '\u{3000}'
}

/// Whether a character is white space.
pub fn space(c: char) -> (r: bool)
    ensures
        r == is_space(c),
{
    ('\u{9}' <= c && c <= '\u{d}') || c == ' ' || c == '\u{85}' || c == '\u{a0}' || c == '\u{1680}'
        || ('\u{2000}' <= c && c <= '\u{200a}') || c == '\u{2028}' || c == '\u{2029}' || c
        == '\u{202f}' || c == '\u{205f}' || c == '\u{3000}'
}

/// `0` to `9`.
pub open spec fn is_digit(c: char) -> bool {
    '0' <= c <= '9'
}

/// An ASCII letter or digit.
pub open spec fn is_alnum(c: char) -> bool {
    is_digit(c) || 'a' <= c <= 'z' || 'A' <= c <= 'Z'
}

/// Whether a character is one of `0` to `9`.
pub fn digit(c: char) -> (r: bool)
    ensures
        r == is_digit(c),
{
    '0' <= c && c <= '9'
}

/// Whether a character is an ASCII letter or digit.
pub fn alnum(c: char) -> (r: bool)
    ensures
        r == is_alnum(c),
{
    ('0' <= c && c <= '9') || ('a' <= c && c <= 'z') || ('A' <= c && c <= 'Z')
}

/// Every character is a digit; true of the empty text.
pub open spec fn all_digits(s: Seq<char>) -> bool {
    forall|i: int| 0 <= i < s.len() ==> is_digit(#[trigger] s[i])
}

/// Whether every character is a digit.
pub fn only_digits(s: &[char]) -> (r: bool)
    ensures
        r == all_digits(s@),
{
    let mut i: usize = 0;
    while i < s.len()
        invariant
            i <= s.len(),
            forall|j: int| 0 <= j < i ==> is_digit(#[trigger] s@[j]),
        decreases s.len() - i,
    {
        if !digit(s[i]) {
            return false;
        }
        i = i + 1;
    }
    true
}

/// The lower-case ASCII letter of an upper-case one; every other character as it is.
pub open spec fn ascii_lower(c: char) -> char {
    if 'A' <= c <= 'Z' {
        (c as int + 32) as char
    } else {
        c
    }
}

/// One character in ASCII lower case.
pub fn lower(c: char) -> (r: char)
    ensures
        r == ascii_lower(c),
{
    match c {
        'A' => 'a', 'B' => 'b', 'C' => 'c', 'D' => 'd', 'E' => 'e', 'F' => 'f', 'G' => 'g',
        'H' => 'h', 'I' => 'i', 'J' => 'j', 'K' => 'k', 'L' => 'l', 'M' => 'm', 'N' => 'n',
        'O' => 'o', 'P' => 'p', 'Q' => 'q', 'R' => 'r', 'S' => 's', 'T' => 't', 'U' => 'u',
        'V' => 'v', 'W' => 'w', 'X' => 'x', 'Y' => 'y', 'Z' => 'z',
        _ => c,
    }
}

/// A text in ASCII lower case.
pub open spec fn ascii_lowercase(s: Seq<char>) -> Seq<char> {
    s.map_values(|c: char| ascii_lower(c))
}

/// A text in ASCII lower case.
pub fn lowercase_ascii(s: &[char]) -> (r: Vec<char>)
    ensures
        r@ == ascii_lowercase(s@),
{
    let mut out: Vec<char> = Vec::new();
    let mut i: usize = 0;
    while i < s.len()
        invariant
            i <= s.len(),
            out@ == ascii_lowercase(s@.take(i as int)),
        decreases s.len() - i,
    {
        out.push(lower(s[i]));
        i = i + 1;
        assert(out@ =~= ascii_lowercase(s@.take(i as int)));
    }
    assert(s@.take(i as int) =~= s@);
    out
}

// ---------------------------------------------------------------------------
// Between strings and characters
// ---------------------------------------------------------------------------

/// The characters of a string.
pub fn chars_of(s: &str) -> (r: Vec<char>)
    ensures
        r@ == s@,
{
    let mut out: Vec<char> = Vec::new();
    for c in it: s.chars()
        invariant
            out@ == it.seq().take(it.index()),
    {
        out.push(c);
        assert(out@ =~= it.seq().take(it.index() + 1));
    }
    out
}

/// The string made of some characters.
pub fn string_of(cs: &[char]) -> (r: String)
    ensures
        r@ == cs@,
{
    let mut out: String = String::new();
    let mut i: usize = 0;
    while i < cs.len()
        invariant
            i <= cs.len(),
            out@ == cs@.take(i as int),
        decreases cs.len() - i,
    {
        out.push(cs[i]);
        i = i + 1;
        assert(out@ =~= cs@.take(i as int));
    }
    assert(cs@.take(i as int) =~= cs@);
    out
}

/// The part of a text from one place up to another.
pub fn part(s: &[char], from: usize, to: usize) -> (r: &[char])
    requires
        from <= to <= s@.len(),
    ensures
        r@ == s@.subrange(from as int, to as int),
{
    slice_subrange(s, from, to)
}

/// Two texts are the same.
pub fn same(a: &[char], b: &[char]) -> (r: bool)
    ensures
        r == (a@ == b@),
{
    if a.len() != b.len() {
        return false;
    }
    let mut i: usize = 0;
    while i < a.len()
        invariant
            i <= a.len(),
            a.len() == b.len(),
            forall|j: int| 0 <= j < i ==> a@[j] == b@[j],
        decreases a.len() - i,
    {
        if a[i] != b[i] {
            return false;
        }
        i = i + 1;
    }
    assert(a@ =~= b@);
    true
}

/// A text is the given string.
pub fn reads(a: &[char], b: &str) -> (r: bool)
    ensures
        r == (a@ == b@),
{
    let b = chars_of(b);
    same(a, &b)
}

/// Two strings are the same.
pub fn equal(a: &str, b: &str) -> (r: bool)
    ensures
        r == (a@ == b@),
{
    let a = chars_of(a);
    let b = chars_of(b);
    same(&a, &b)
}

/// A list of borrowed texts, as the texts themselves.
pub open spec fn texts(v: Seq<&[char]>) -> Seq<Seq<char>> {
    v.map_values(|s: &[char]| s@)
}

/// A string holding two texts one after the other.
pub fn cat2(a: &str, b: &str) -> (r: String)
    ensures
        r@ == a@ + b@,
{
    let mut out = String::from_str(a);
    out.append(b);
    out
}

/// A string holding three texts one after the other.
pub fn cat3(a: &str, b: &str, c: &str) -> (r: String)
    ensures
        r@ == a@ + b@ + c@,
{
    let mut out = String::from_str(a);
    out.append(b);
    out.append(c);
    out
}

/// A string holding four texts one after the other.
pub fn cat4(a: &str, b: &str, c: &str, d: &str) -> (r: String)
    ensures
        r@ == a@ + b@ + c@ + d@,
{
    let mut out = String::from_str(a);
    out.append(b);
    out.append(c);
    out.append(d);
    out
}

/// A string holding five texts one after the other.
pub fn cat5(a: &str, b: &str, c: &str, d: &str, e: &str) -> (r: String)
    ensures
        r@ == a@ + b@ + c@ + d@ + e@,
{
    let mut out = String::from_str(a);
    out.append(b);
    out.append(c);
    out.append(d);
    out.append(e);
    out
}

// ---------------------------------------------------------------------------
// Trimming
// ---------------------------------------------------------------------------

/// A text without the white space at its start.
pub open spec fn trim_start(s: Seq<char>) -> Seq<char>
    decreases s.len(),
{
    if s.len() > 0 && is_space(s[0]) {
        trim_start(s.skip(1))
    } else {
        s
    }
}

/// A text without the white space at its end.
pub open spec fn trim_end(s: Seq<char>) -> Seq<char>
    decreases s.len(),
{
    if s.len() > 0 && is_space(s.last()) {
        trim_end(s.drop_last())
    } else {
        s
    }
}

/// A text without the white space round it.
pub open spec fn trim(s: Seq<char>) -> Seq<char> {
    trim_end(trim_start(s))
}

/// Drops the white space at the start of a text.
pub fn trimmed_start(s: &[char]) -> (r: &[char])
    ensures
        r@ == trim_start(s@),
{
    let mut i: usize = 0;
    assert(s@.skip(0) =~= s@);
    while i < s.len() && space(s[i])
        invariant
            i <= s.len(),
            trim_start(s@.skip(i as int)) == trim_start(s@),
        decreases s.len() - i,
    {
        assert(s@.skip(i as int).skip(1) =~= s@.skip(i + 1));
        i = i + 1;
    }
    part(s, i, s.len())
}

/// Drops the white space at the end of a text.
pub fn trimmed_end(s: &[char]) -> (r: &[char])
    ensures
        r@ == trim_end(s@),
{
    let mut n: usize = s.len();
    assert(s@.take(n as int) =~= s@);
    while n > 0 && space(s[n - 1])
        invariant
            n <= s.len(),
            trim_end(s@.take(n as int)) == trim_end(s@),
        decreases n,
    {
        assert(s@.take(n as int).drop_last() =~= s@.take(n - 1));
        n = n - 1;
    }
    part(s, 0, n)
}

/// Drops the white space round a text.
pub fn trimmed(s: &[char]) -> (r: &[char])
    ensures
        r@ == trim(s@),
{
    trimmed_end(trimmed_start(s))
}

/// A text without the leading run of one character.
pub open spec fn trim_start_char(s: Seq<char>, c: char) -> Seq<char>
    decreases s.len(),
{
    if s.len() > 0 && s[0] == c {
        trim_start_char(s.skip(1), c)
    } else {
        s
    }
}

/// Drops the leading run of one character.
pub fn trimmed_start_char(s: &[char], c: char) -> (r: &[char])
    ensures
        r@ == trim_start_char(s@, c),
{
    let mut i: usize = 0;
    assert(s@.skip(0) =~= s@);
    while i < s.len() && s[i] == c
        invariant
            i <= s.len(),
            trim_start_char(s@.skip(i as int), c) == trim_start_char(s@, c),
        decreases s.len() - i,
    {
        assert(s@.skip(i as int).skip(1) =~= s@.skip(i + 1));
        i = i + 1;
    }
    part(s, i, s.len())
}

/// A text without the trailing run of one character.
pub open spec fn trim_end_char(s: Seq<char>, c: char) -> Seq<char>
    decreases s.len(),
{
    if s.len() > 0 && s.last() == c {
        trim_end_char(s.drop_last(), c)
    } else {
        s
    }
}

/// Drops the trailing run of one character.
pub fn trimmed_end_char(s: &[char], c: char) -> (r: &[char])
    ensures
        r@ == trim_end_char(s@, c),
{
    let mut n: usize = s.len();
    assert(s@.take(n as int) =~= s@);
    while n > 0 && s[n - 1] == c
        invariant
            n <= s.len(),
            trim_end_char(s@.take(n as int), c) == trim_end_char(s@, c),
        decreases n,
    {
        assert(s@.take(n as int).drop_last() =~= s@.take(n - 1));
        n = n - 1;
    }
    part(s, 0, n)
}

/// A text without the runs of one character at either end.
pub open spec fn trim_char(s: Seq<char>, c: char) -> Seq<char> {
    trim_end_char(trim_start_char(s, c), c)
}

/// Drops the runs of one character at either end.
pub fn trimmed_char(s: &[char], c: char) -> (r: &[char])
    ensures
        r@ == trim_char(s@, c),
{
    trimmed_end_char(trimmed_start_char(s, c), c)
}

// ---------------------------------------------------------------------------
// Searching
// ---------------------------------------------------------------------------

/// Whether a text begins with another.
pub fn starts(s: &[char], p: &[char]) -> (r: bool)
    ensures
        r == p@.is_prefix_of(s@),
{
    if p.len() > s.len() {
        return false;
    }
    let head = part(s, 0, p.len());
    same(p, head)
}

/// Whether a text begins with the given string.
pub fn starts_with(s: &[char], p: &str) -> (r: bool)
    ensures
        r == p@.is_prefix_of(s@),
{
    let p = chars_of(p);
    starts(s, &p)
}

/// Whether a text ends with another.
pub fn ends(s: &[char], p: &[char]) -> (r: bool)
    ensures
        r == p@.is_suffix_of(s@),
{
    if p.len() > s.len() {
        return false;
    }
    let tail = part(s, s.len() - p.len(), s.len());
    same(p, tail)
}

/// Whether a text ends with the given string.
pub fn ends_with(s: &[char], p: &str) -> (r: bool)
    ensures
        r == p@.is_suffix_of(s@),
{
    let p = chars_of(p);
    ends(s, &p)
}

/// What follows a prefix, where a text has it.
pub open spec fn strip_prefix(s: Seq<char>, p: Seq<char>) -> Option<Seq<char>> {
    if p.is_prefix_of(s) {
        Some(s.skip(p.len() as int))
    } else {
        None
    }
}

/// What follows a prefix.
pub fn after_prefix<'a>(s: &'a [char], p: &[char]) -> (r: Option<&'a [char]>)
    ensures
        r is Some <==> strip_prefix(s@, p@) is Some,
        r is Some ==> r->0@ == strip_prefix(s@, p@)->0,
{
    if starts(s, p) {
        Some(part(s, p.len(), s.len()))
    } else {
        None
    }
}

/// What precedes a suffix, where a text has it.
pub open spec fn strip_suffix(s: Seq<char>, p: Seq<char>) -> Option<Seq<char>> {
    if p.is_suffix_of(s) {
        Some(s.take(s.len() - p.len()))
    } else {
        None
    }
}

/// What precedes a suffix.
pub fn before_suffix<'a>(s: &'a [char], p: &[char]) -> (r: Option<&'a [char]>)
    ensures
        r is Some <==> strip_suffix(s@, p@) is Some,
        r is Some ==> r->0@ == strip_suffix(s@, p@)->0,
{
    if ends(s, p) {
        Some(part(s, 0, s.len() - p.len()))
    } else {
        None
    }
}

/// The place of the first `c`, or the length of the text where there is none.
pub open spec fn find_char(s: Seq<char>, c: char) -> int
    decreases s.len(),
{
    if s.len() == 0 || s[0] == c {
        0
    } else {
        1 + find_char(s.skip(1), c)
    }
}

/// `find_char` is the first place that holds the character.
pub proof fn lemma_find_char(s: Seq<char>, c: char)
    ensures
        0 <= find_char(s, c) <= s.len(),
        forall|j: int| 0 <= j < find_char(s, c) ==> s[j] != c,
        find_char(s, c) < s.len() ==> s[find_char(s, c)] == c,
    decreases s.len(),
{
    if s.len() > 0 && s[0] != c {
        lemma_find_char(s.skip(1), c);
        assert forall|j: int| 0 <= j < find_char(s, c) implies s[j] != c by {
            if j > 0 {
                assert(s.skip(1)[j - 1] == s[j]);
            }
        }
    }
}

/// The place of the first `c`, or the length of the text.
pub fn index_of(s: &[char], c: char) -> (r: usize)
    ensures
        r == find_char(s@, c),
        r <= s@.len(),
        r < s@.len() ==> s@[r as int] == c,
        forall|j: int| 0 <= j < r ==> s@[j] != c,
{
    let mut i: usize = 0;
    assert(s@.skip(0) =~= s@);
    while i < s.len() && s[i] != c
        invariant
            i <= s.len(),
            find_char(s@, c) == i + find_char(s@.skip(i as int), c),
            forall|j: int| 0 <= j < i ==> s@[j] != c,
        decreases s.len() - i,
    {
        assert(s@.skip(i as int).skip(1) =~= s@.skip(i + 1));
        i = i + 1;
    }
    i
}

/// Whether a text holds a character.
pub fn has_char(s: &[char], c: char) -> (r: bool)
    ensures
        r == s@.contains(c),
{
    let i: usize = index_of(s, c);
    i < s.len()
}

/// The place of the last `c`, if there is one.
pub open spec fn rfind_char(s: Seq<char>, c: char) -> Option<int>
    decreases s.len(),
{
    if s.len() == 0 {
        None
    } else if s.last() == c {
        Some(s.len() - 1)
    } else {
        rfind_char(s.drop_last(), c)
    }
}

/// The place of the last `c`.
pub fn last_index_of(s: &[char], c: char) -> (r: Option<usize>)
    ensures
        r is Some <==> rfind_char(s@, c) is Some,
        r is Some ==> r->0 == rfind_char(s@, c)->0 && r->0 < s@.len() && s@[r->0 as int] == c,
{
    let mut n: usize = s.len();
    assert(s@.take(n as int) =~= s@);
    while n > 0
        invariant
            n <= s.len(),
            rfind_char(s@.take(n as int), c) == rfind_char(s@, c),
        decreases n,
    {
        assert(s@.take(n as int).drop_last() =~= s@.take(n - 1));
        if s[n - 1] == c {
            return Some(n - 1);
        }
        n = n - 1;
    }
    None
}

/// The place where a pattern first occurs in a text.
pub open spec fn find(s: Seq<char>, p: Seq<char>) -> Option<int>
    decreases s.len(),
{
    if p.is_prefix_of(s) {
        Some(0)
    } else if s.len() == 0 {
        None
    } else {
        match find(s.skip(1), p) {
            Some(i) => Some(i + 1),
            None => None,
        }
    }
}

/// A text has a pattern somewhere in it.
pub open spec fn contains(s: Seq<char>, p: Seq<char>) -> bool {
    exists|i: int| 0 <= i <= s.len() - p.len() && #[trigger] s.subrange(i, i + p.len()) == p
}

/// `find` gives the first place, and finds one exactly where the text contains the pattern.
pub proof fn lemma_find(s: Seq<char>, p: Seq<char>)
    ensures
        find(s, p) is Some <==> contains(s, p),
        find(s, p) is Some ==> 0 <= find(s, p)->0 <= s.len() - p.len() && s.subrange(
            find(s, p)->0,
            find(s, p)->0 + p.len(),
        ) == p,
    decreases s.len(),
{
    if p.is_prefix_of(s) {
        assert(s.subrange(0int, 0int + p.len()) =~= p);
    } else if s.len() > 0 {
        let t = s.skip(1);
        lemma_find(t, p);
        if contains(s, p) {
            let i = choose|i: int|
                0 <= i <= s.len() - p.len() && #[trigger] s.subrange(i, i + p.len()) == p;
            if i == 0 {
                assert(s.subrange(0, p.len() as int) =~= p);
                assert(p.is_prefix_of(s));
            }
            assert(t.subrange(i - 1, i - 1 + p.len()) =~= s.subrange(i, i + p.len()));
            assert(contains(t, p));
        }
        if contains(t, p) {
            let i = find(t, p)->0;
            assert(s.subrange(i + 1, i + 1 + p.len()) =~= t.subrange(i, i + p.len()));
        }
    } else {
        if contains(s, p) {
            assert(p =~= s);
            assert(p.is_prefix_of(s));
        }
    }
}

/// The place where a pattern first occurs.
pub fn found(s: &[char], p: &[char]) -> (r: Option<usize>)
    ensures
        r is Some <==> find(s@, p@) is Some,
        r is Some ==> r->0 == find(s@, p@)->0 && r->0 + p@.len() <= s@.len(),
{
    let mut i: usize = 0;
    assert(s@.skip(0) =~= s@);
    loop
        invariant
            i <= s.len(),
            find(s@, p@) is Some <==> find(s@.skip(i as int), p@) is Some,
            find(s@, p@) is Some ==> find(s@, p@)->0 == i + find(s@.skip(i as int), p@)->0,
        decreases s.len() - i,
    {
        let rest = part(s, i, s.len());
        assert(rest@ =~= s@.skip(i as int));
        if starts(rest, p) {
            return Some(i);
        }
        if i == s.len() {
            return None;
        }
        assert(s@.skip(i as int).skip(1) =~= s@.skip(i + 1));
        i = i + 1;
    }
}

/// Whether a pattern occurs in a text.
pub fn holds(s: &[char], p: &str) -> (r: bool)
    ensures
        r == contains(s@, p@),
{
    let p = chars_of(p);
    proof {
        lemma_find(s@, p@);
    }
    match found(s, &p) {
        Some(_) => true,
        None => false,
    }
}

// ---------------------------------------------------------------------------
// Splitting
// ---------------------------------------------------------------------------

/// The parts of a text before, between and after each `c`.
pub open spec fn split(s: Seq<char>, c: char) -> Seq<Seq<char>>
    decreases s.len(),
    via split_decreases
{
    let i = find_char(s, c);
    if i >= s.len() {
        seq![s]
    } else {
        seq![s.take(i)] + split(s.skip(i + 1), c)
    }
}

#[via_fn]
proof fn split_decreases(s: Seq<char>, c: char) {
    lemma_find_char(s, c);
}

/// Splits a text at each `c`.
pub fn pieces<'a>(s: &'a [char], c: char) -> (r: Vec<&'a [char]>)
    ensures
        texts(r@) == split(s@, c),
        r@.len() > 0,
{
    let mut out: Vec<&'a [char]> = Vec::new();
    let mut rest: &'a [char] = s;
    loop
        invariant
            texts(out@) + split(rest@, c) == split(s@, c),
        decreases rest@.len(),
    {
        let i: usize = index_of(rest, c);
        let head = part(rest, 0, i);
        let ghost before = out@;
        out.push(head);
        assert(texts(out@) =~= texts(before).push(head@));
        if i >= rest.len() {
            assert(head@ =~= rest@);
            assert(texts(out@) =~= texts(before) + split(rest@, c));
            return out;
        }
        let tail = part(rest, i + 1, rest.len());
        assert(tail@ =~= rest@.skip(i + 1));
        assert(head@ =~= rest@.take(i as int));
        assert(texts(before) + (seq![head@] + split(tail@, c)) =~= texts(out@) + split(tail@, c));
        rest = tail;
    }
}

/// What stands before and after the first `c`.
pub open spec fn split_once(s: Seq<char>, c: char) -> Option<(Seq<char>, Seq<char>)> {
    let i = find_char(s, c);
    if i >= s.len() {
        None
    } else {
        Some((s.take(i), s.skip(i + 1)))
    }
}

/// Splits a text at the first `c`.
pub fn cut<'a>(s: &'a [char], c: char) -> (r: Option<(&'a [char], &'a [char])>)
    ensures
        r is Some <==> split_once(s@, c) is Some,
        r is Some ==> (r->0).0@ == (split_once(s@, c)->0).0 && (r->0).1@ == (split_once(s@, c)->0).1,
{
    let i: usize = index_of(s, c);
    if i >= s.len() {
        None
    } else {
        Some((part(s, 0, i), part(s, i + 1, s.len())))
    }
}

/// What stands before and after the last `c`.
pub open spec fn rsplit_once(s: Seq<char>, c: char) -> Option<(Seq<char>, Seq<char>)> {
    match rfind_char(s, c) {
        Some(i) => Some((s.take(i), s.skip(i + 1))),
        None => None,
    }
}

/// Splits a text at the last `c`.
pub fn cut_last<'a>(s: &'a [char], c: char) -> (r: Option<(&'a [char], &'a [char])>)
    ensures
        r is Some <==> rsplit_once(s@, c) is Some,
        r is Some ==> (r->0).0@ == (rsplit_once(s@, c)->0).0 && (r->0).1@ == (rsplit_once(s@, c)->0).1,
{
    let n: usize = s.len();
    match last_index_of(s, c) {
        Some(i) => Some((part(s, 0, i), part(s, i + 1, n))),
        None => None,
    }
}

/// A line without the carriage return that ends it.
pub open spec fn without_return(s: Seq<char>) -> Seq<char> {
    if s.len() > 0 && s.last() == '\r' {
        s.drop_last()
    } else {
        s
    }
}

/// The lines of a text. Each ends in a line feed, or a carriage return and a line feed; the last
/// one need not.
pub open spec fn lines(s: Seq<char>) -> Seq<Seq<char>>
    decreases s.len(),
    via lines_decreases
{
    if s.len() == 0 {
        Seq::empty()
    } else {
        let i = find_char(s, '\n');
        if i >= s.len() {
            seq![s]
        } else {
            seq![without_return(s.take(i))] + lines(s.skip(i + 1))
        }
    }
}

#[via_fn]
proof fn lines_decreases(s: Seq<char>) {
    lemma_find_char(s, '\n');
}

/// The lines of a text.
pub fn lines_of<'a>(s: &'a [char]) -> (r: Vec<&'a [char]>)
    ensures
        texts(r@) == lines(s@),
{
    let mut out: Vec<&'a [char]> = Vec::new();
    let mut rest: &'a [char] = s;
    assert(texts(out@) + lines(rest@) =~= lines(s@));
    while rest.len() > 0
        invariant
            texts(out@) + lines(rest@) == lines(s@),
        decreases rest@.len(),
    {
        let i: usize = index_of(rest, '\n');
        let ghost before = out@;
        if i >= rest.len() {
            out.push(rest);
            assert(texts(out@) =~= texts(before) + lines(rest@));
            return out;
        }
        let end: usize = if i > 0 && rest[i - 1] == '\r' { i - 1 } else { i };
        let line = part(rest, 0, end);
        assert(line@ =~= without_return(rest@.take(i as int)));
        out.push(line);
        assert(texts(out@) =~= texts(before).push(line@));
        let tail = part(rest, i + 1, rest.len());
        assert(tail@ =~= rest@.skip(i + 1));
        assert(texts(before) + (seq![line@] + lines(tail@)) =~= texts(out@) + lines(tail@));
        rest = tail;
    }
    assert(texts(out@) =~= texts(out@) + lines(rest@));
    out
}

/// How many characters at the start of a text are not white space.
pub open spec fn word_end(s: Seq<char>) -> int
    decreases s.len(),
{
    if s.len() == 0 || is_space(s[0]) {
        0
    } else {
        1 + word_end(s.skip(1))
    }
}

/// `word_end` stays within the text.
pub proof fn lemma_word_end(s: Seq<char>)
    ensures
        0 <= word_end(s) <= s.len(),
    decreases s.len(),
{
    if s.len() > 0 && !is_space(s[0]) {
        lemma_word_end(s.skip(1));
    }
}

/// `trim_start` never makes a text longer.
pub proof fn lemma_trim_start_len(s: Seq<char>)
    ensures
        trim_start(s).len() <= s.len(),
        trim_start(s).len() > 0 ==> !is_space(trim_start(s)[0]),
    decreases s.len(),
{
    if s.len() > 0 && is_space(s[0]) {
        lemma_trim_start_len(s.skip(1));
    }
}

/// The words of a text: its longest runs without white space.
pub open spec fn words(s: Seq<char>) -> Seq<Seq<char>>
    decreases s.len(),
    via words_decreases
{
    let t = trim_start(s);
    if t.len() == 0 {
        Seq::empty()
    } else {
        seq![t.take(word_end(t))] + words(t.skip(word_end(t)))
    }
}

#[via_fn]
proof fn words_decreases(s: Seq<char>) {
    lemma_trim_start_len(s);
    let t = trim_start(s);
    lemma_word_end(t);
    if t.len() > 0 {
        lemma_word_end(t.skip(1));
    }
}

/// The words of a text.
pub fn words_of<'a>(s: &'a [char]) -> (r: Vec<&'a [char]>)
    ensures
        texts(r@) == words(s@),
{
    let mut out: Vec<&'a [char]> = Vec::new();
    let mut rest: &'a [char] = s;
    assert(texts(out@) + words(rest@) =~= words(s@));
    loop
        invariant
            texts(out@) + words(rest@) == words(s@),
        decreases rest@.len(),
    {
        let t = trimmed_start(rest);
        proof {
            lemma_trim_start_len(rest@);
        }
        if t.len() == 0 {
            assert(texts(out@) =~= texts(out@) + words(rest@));
            return out;
        }
        let mut i: usize = 0;
        assert(t@.skip(0) =~= t@);
        while i < t.len() && !space(t[i])
            invariant
                i <= t.len(),
                word_end(t@) == i + word_end(t@.skip(i as int)),
                i == 0 ==> t.len() > 0 && !is_space(t@[0]),
            ensures
                i == word_end(t@),
                0 < i <= t.len(),
            decreases t.len() - i,
        {
            assert(t@.skip(i as int).skip(1) =~= t@.skip(i + 1));
            i = i + 1;
        }
        let word = part(t, 0, i);
        let ghost before = out@;
        out.push(word);
        assert(texts(out@) =~= texts(before).push(word@));
        let tail = part(t, i, t.len());
        assert(tail@ =~= t@.skip(i as int));
        assert(word@ =~= t@.take(i as int));
        assert(texts(before) + (seq![word@] + words(tail@)) =~= texts(out@) + words(tail@));
        rest = tail;
    }
}

// ---------------------------------------------------------------------------
// Joining
// ---------------------------------------------------------------------------

/// Texts one after the other, with a separator between each two.
pub open spec fn join(parts: Seq<Seq<char>>, sep: Seq<char>) -> Seq<char>
    decreases parts.len(),
{
    if parts.len() == 0 {
        Seq::empty()
    } else if parts.len() == 1 {
        parts[0]
    } else {
        join(parts.drop_last(), sep) + sep + parts.last()
    }
}

/// Joins strings with a separator.
pub fn joined(parts: &Vec<String>, sep: &str) -> (r: String)
    ensures
        r@ == join(parts.deep_view(), sep@),
{
    let mut out = String::new();
    let mut i: usize = 0;
    while i < parts.len()
        invariant
            i <= parts.len(),
            out@ == join(parts.deep_view().take(i as int), sep@),
        decreases parts.len() - i,
    {
        let ghost all = parts.deep_view();
        assert(all.take(i + 1).drop_last() =~= all.take(i as int));
        assert(all.take(i + 1).last() == parts@[i as int]@);
        if i > 0 {
            out.append(sep);
        }
        out.append(&parts[i]);
        assert(out@ =~= join(all.take(i + 1), sep@));
        i = i + 1;
    }
    assert(parts.deep_view().take(i as int) =~= parts.deep_view());
    out
}

/// A text with every `from` replaced by `to`.
pub open spec fn replace_char(s: Seq<char>, from: char, to: char) -> Seq<char> {
    s.map_values(|c: char| if c == from { to } else { c })
}

/// Replaces every `from` by `to`.
pub fn replaced(s: &[char], from: char, to: char) -> (r: Vec<char>)
    ensures
        r@ == replace_char(s@, from, to),
{
    let mut out: Vec<char> = Vec::new();
    let mut i: usize = 0;
    while i < s.len()
        invariant
            i <= s.len(),
            out@ == replace_char(s@.take(i as int), from, to),
        decreases s.len() - i,
    {
        out.push(if s[i] == from { to } else { s[i] });
        i = i + 1;
        assert(out@ =~= replace_char(s@.take(i as int), from, to));
    }
    assert(s@.take(i as int) =~= s@);
    out
}

/// A text without the leading repeats of a prefix.
pub open spec fn trim_start_text(s: Seq<char>, p: Seq<char>) -> Seq<char>
    decreases s.len(),
{
    if p.len() > 0 && p.is_prefix_of(s) {
        trim_start_text(s.skip(p.len() as int), p)
    } else {
        s
    }
}

/// Drops the leading repeats of a prefix.
pub fn trimmed_start_text<'a>(s: &'a [char], p: &str) -> (r: &'a [char])
    ensures
        r@ == trim_start_text(s@, p@),
{
    let p_chars = chars_of(p);
    let mut rest: &'a [char] = s;
    while p_chars.len() > 0 && starts(rest, &p_chars)
        invariant
            p_chars@ == p@,
            trim_start_text(rest@, p@) == trim_start_text(s@, p@),
        decreases rest@.len(),
    {
        let tail = part(rest, p_chars.len(), rest.len());
        assert(tail@ =~= rest@.skip(p@.len() as int));
        rest = tail;
    }
    rest
}

/// The parts of a text before, between and after each occurrence of a pattern, which is not empty.
pub open spec fn split_text(s: Seq<char>, p: Seq<char>) -> Seq<Seq<char>>
    decreases s.len(),
    via split_text_decreases
{
    match find(s, p) {
        Some(i) => if p.len() > 0 {
            seq![s.take(i)] + split_text(s.skip(i + p.len()), p)
        } else {
            seq![s]
        },
        None => seq![s],
    }
}

#[via_fn]
proof fn split_text_decreases(s: Seq<char>, p: Seq<char>) {
    lemma_find(s, p);
}

/// Splits a text at each occurrence of a pattern.
pub fn pieces_at<'a>(s: &'a [char], p: &str) -> (r: Vec<&'a [char]>)
    requires
        p@.len() > 0,
    ensures
        texts(r@) == split_text(s@, p@),
{
    let p_chars = chars_of(p);
    let mut out: Vec<&'a [char]> = Vec::new();
    let mut rest: &'a [char] = s;
    loop
        invariant
            p_chars@ == p@,
            p@.len() > 0,
            texts(out@) + split_text(rest@, p@) == split_text(s@, p@),
        decreases rest@.len(),
    {
        let ghost before = out@;
        match found(rest, &p_chars) {
            Some(i) => {
                let n: usize = rest.len();
                let head = part(rest, 0, i);
                out.push(head);
                assert(texts(out@) =~= texts(before).push(head@));
                let tail = part(rest, i + p_chars.len(), n);
                assert(tail@ =~= rest@.skip(i + p@.len()));
                assert(head@ =~= rest@.take(i as int));
                assert(texts(before) + (seq![head@] + split_text(tail@, p@)) =~= texts(out@)
                    + split_text(tail@, p@));
                rest = tail;
            },
            None => {
                out.push(rest);
                assert(texts(out@) =~= texts(before) + split_text(rest@, p@));
                return out;
            },
        }
    }
}

/// How many bytes a character takes in UTF-8.
pub open spec fn char_width(c: char) -> int {
    if '\u{80}' > c {
        1
    } else if '\u{800}' > c {
        2
    } else if '\u{10000}' > c {
        3
    } else {
        4
    }
}

/// How many bytes a text takes in UTF-8.
pub open spec fn byte_len(s: Seq<char>) -> int
    decreases s.len(),
{
    if s.len() == 0 {
        0
    } else {
        byte_len(s.drop_last()) + char_width(s.last())
    }
}

proof fn lemma_byte_len_take(s: Seq<char>, n: int)
    requires
        0 <= n <= s.len(),
    ensures
        0 <= byte_len(s.take(n)) <= byte_len(s),
    decreases s.len(),
{
    if s.len() > 0 {
        if n < s.len() {
            lemma_byte_len_take(s.drop_last(), n);
            assert(s.drop_last().take(n) =~= s.take(n));
        } else {
            assert(s.take(n) =~= s);
            lemma_byte_len_take(s.drop_last(), 0);
        }
    } else {
        assert(s.take(n) =~= s);
    }
}

/// Whether a text takes more than `n` bytes in UTF-8.
pub fn longer_than(s: &[char], n: usize) -> (r: bool)
    requires
        n <= 0xffff,
    ensures
        r == (byte_len(s@) > n),
{
    let mut count: usize = 0;
    let mut i: usize = 0;
    while i < s.len()
        invariant
            i <= s.len(),
            n <= 0xffff,
            count <= n,
            count == byte_len(s@.take(i as int)),
        decreases s.len() - i,
    {
        assert(s@.take(i + 1).drop_last() =~= s@.take(i as int));
        let c = s[i];
        let width: usize = if '\u{80}' > c {
            1
        } else if '\u{800}' > c {
            2
        } else if '\u{10000}' > c {
            3
        } else {
            4
        };
        count = count + width;
        i = i + 1;
        if count > n {
            proof {
                lemma_byte_len_take(s@, i as int);
            }
            return true;
        }
    }
    assert(s@.take(i as int) =~= s@);
    false
}

/// A list of one text.
pub fn single(text: &str) -> (r: Vec<String>)
    ensures
        r.deep_view() == seq![text@],
{
    let mut list: Vec<String> = Vec::new();
    list.push(String::from_str(text));
    assert(list.deep_view() =~= seq![text@]);
    list
}

/// `trim_end` never makes a text longer.
pub proof fn lemma_trim_end_len(s: Seq<char>)
    ensures
        trim_end(s).len() <= s.len(),
    decreases s.len(),
{
    if s.len() > 0 && is_space(s.last()) {
        lemma_trim_end_len(s.drop_last());
    }
}

/// A text has no more words than characters.
pub proof fn lemma_words_len(s: Seq<char>)
    ensures
        words(s).len() <= s.len(),
    decreases s.len(),
{
    lemma_trim_start_len(s);
    let t = trim_start(s);
    if t.len() > 0 {
        lemma_word_end(t);
        lemma_word_end(t.skip(1));
        lemma_words_len(t.skip(word_end(t)));
    }
}

/// No line is longer than the text.
pub proof fn lemma_lines_len(s: Seq<char>, i: int)
    requires
        0 <= i < lines(s).len(),
    ensures
        lines(s)[i].len() <= s.len(),
    decreases s.len(),
{
    if s.len() > 0 {
        lemma_find_char(s, '\n');
        let at = find_char(s, '\n');
        if at < s.len() && i > 0 {
            lemma_lines_len(s.skip(at + 1), i - 1);
        }
    }
}

/// No part is longer than the text.
pub proof fn lemma_split_text_len(s: Seq<char>, p: Seq<char>, i: int)
    requires
        0 <= i < split_text(s, p).len(),
    ensures
        split_text(s, p)[i].len() <= s.len(),
    decreases s.len(),
{
    lemma_find(s, p);
    if let Some(at) = find(s, p) {
        if p.len() > 0 && i > 0 {
            lemma_split_text_len(s.skip(at + p.len()), p, i - 1);
        }
    }
}

// ---------------------------------------------------------------------------
// Laws
// ---------------------------------------------------------------------------

/// A text is white space and nothing else.
pub open spec fn all_space(s: Seq<char>) -> bool {
    forall|i: int| 0 <= i < s.len() ==> is_space(#[trigger] s[i])
}

/// A text has no white space at either end.
pub open spec fn is_tight(s: Seq<char>) -> bool {
    s.len() > 0 ==> !is_space(s[0]) && !is_space(s.last())
}

proof fn lemma_start_dropped(before: Seq<char>, s: Seq<char>)
    requires
        all_space(before),
        s.len() > 0 ==> !is_space(s[0]),
    ensures
        trim_start(before + s) == s,
    decreases before.len(),
{
    let all = before + s;
    if before.len() == 0 {
        assert(all =~= s);
    } else {
        assert(is_space(before[0]));
        assert(all.skip(1) =~= before.skip(1) + s);
        assert forall|i: int| 0 <= i < before.skip(1).len() implies is_space(
            #[trigger] before.skip(1)[i],
        ) by {
            assert(is_space(before[i + 1]));
        }
        lemma_start_dropped(before.skip(1), s);
    }
}

proof fn lemma_end_dropped(s: Seq<char>, after: Seq<char>)
    requires
        all_space(after),
        s.len() > 0 ==> !is_space(s.last()),
    ensures
        trim_end(s + after) == s,
    decreases after.len(),
{
    let all = s + after;
    if after.len() == 0 {
        assert(all =~= s);
    } else {
        assert(is_space(after.last()));
        assert(all.drop_last() =~= s + after.drop_last());
        assert forall|i: int| 0 <= i < after.drop_last().len() implies is_space(
            #[trigger] after.drop_last()[i],
        ) by {
            assert(is_space(after[i]));
        }
        lemma_end_dropped(s, after.drop_last());
    }
}

/// Trimming gives back a text from between any white space.
pub proof fn trimming_undoes_padding(before: Seq<char>, s: Seq<char>, after: Seq<char>)
    requires
        all_space(before),
        all_space(after),
        is_tight(s),
    ensures
        trim(before + s + after) == s,
{
    if s.len() == 0 {
        assert(before + s + after =~= (before + after) + Seq::<char>::empty());
        assert forall|i: int| 0 <= i < (before + after).len() implies is_space(
            #[trigger] (before + after)[i],
        ) by {
            if i < before.len() {
                assert(is_space(before[i]));
            } else {
                assert(is_space(after[i - before.len()]));
            }
        }
        lemma_start_dropped(before + after, Seq::<char>::empty());
        assert(s =~= Seq::<char>::empty());
    } else {
        assert(before + s + after =~= before + (s + after));
        assert((s + after)[0] == s[0]);
        lemma_start_dropped(before, s + after);
        lemma_end_dropped(s, after);
    }
}

proof fn lemma_start_taken(s: Seq<char>) -> (before: Seq<char>)
    ensures
        all_space(before),
        s == before + trim_start(s),
        trim_start(s).len() > 0 ==> !is_space(trim_start(s)[0]),
    decreases s.len(),
{
    if s.len() > 0 && is_space(s[0]) {
        let rest = lemma_start_taken(s.skip(1));
        let before = seq![s[0]] + rest;
        assert(s =~= seq![s[0]] + s.skip(1));
        assert(s =~= before + trim_start(s));
        assert forall|i: int| 0 <= i < before.len() implies is_space(#[trigger] before[i]) by {
            if i > 0 {
                assert(before[i] == rest[i - 1]);
            }
        }
        before
    } else {
        assert(s =~= Seq::<char>::empty() + s);
        Seq::empty()
    }
}

proof fn lemma_end_taken(s: Seq<char>) -> (after: Seq<char>)
    ensures
        all_space(after),
        s == trim_end(s) + after,
        trim_end(s).len() > 0 ==> !is_space(trim_end(s).last()) && trim_end(s)[0] == s[0],
    decreases s.len(),
{
    if s.len() > 0 && is_space(s.last()) {
        let rest = lemma_end_taken(s.drop_last());
        let after = rest.push(s.last());
        assert(s =~= s.drop_last().push(s.last()));
        assert((trim_end(s) + rest).push(s.last()) =~= trim_end(s) + after);
        assert forall|i: int| 0 <= i < after.len() implies is_space(#[trigger] after[i]) by {
            if i < rest.len() {
                assert(after[i] == rest[i]);
            }
        }
        after
    } else {
        assert(s =~= s + Seq::<char>::empty());
        Seq::empty()
    }
}

/// Trimming takes nothing but white space, and leaves none at either end.
pub proof fn trimming_takes_only_space(s: Seq<char>)
    ensures
        is_tight(trim(s)),
        exists|before: Seq<char>, after: Seq<char>|
            #![trigger all_space(before), all_space(after)]
            all_space(before) && all_space(after) && s == before + trim(s) + after,
{
    let before = lemma_start_taken(s);
    let after = lemma_end_taken(trim_start(s));
    assert(all_space(before) && all_space(after));
    assert(s =~= before + trim(s) + after);
}

/// A text that has no white space at its ends is left as it is.
pub proof fn tight_text_is_kept(s: Seq<char>)
    requires
        is_tight(s),
    ensures
        trim(s) == s,
{
    let none = Seq::<char>::empty();
    assert(none + s + none =~= s);
    trimming_undoes_padding(none, s, none);
}

proof fn lemma_found_at(part: Seq<char>, c: char, rest: Seq<char>)
    requires
        !part.contains(c),
    ensures
        find_char(part.push(c) + rest, c) == part.len(),
        find_char(part, c) == part.len(),
{
    let s = part.push(c) + rest;
    lemma_find_char(s, c);
    lemma_find_char(part, c);
    let i = find_char(s, c);
    assert(s[part.len() as int] == c);
    if i < part.len() {
        assert(part[i] == c);
    }
    if find_char(part, c) < part.len() {
        assert(part.contains(part[find_char(part, c)]));
    }
}

/// A text is split at a separator: what stands before the first one comes first, then what the rest
/// is split into. A text without one is not split.
pub proof fn parts_come_apart(part: Seq<char>, c: char, rest: Seq<char>)
    requires
        !part.contains(c),
    ensures
        split(part.push(c) + rest, c) == seq![part] + split(rest, c),
        split(part, c) == seq![part],
{
    let s = part.push(c) + rest;
    lemma_found_at(part, c, rest);
    assert(s.take(part.len() as int) =~= part);
    assert(s.skip(part.len() as int + 1) =~= rest);
}

/// The parts of a text hold no separator, and joined by it they make up the text again.
pub proof fn parts_make_up_the_text(s: Seq<char>, c: char)
    ensures
        split(s, c).len() > 0,
        forall|i: int| 0 <= i < split(s, c).len() ==> !(#[trigger] split(s, c)[i]).contains(c),
        join(split(s, c), seq![c]) == s,
    decreases s.len(),
{
    lemma_find_char(s, c);
    let i = find_char(s, c);
    if i >= s.len() {
        assert(!s.contains(c));
    } else {
        let head = s.take(i);
        let rest = s.skip(i + 1);
        parts_make_up_the_text(rest, c);
        let all = split(s, c);
        assert(all =~= seq![head] + split(rest, c));
        assert(!head.contains(c));
        assert forall|k: int| 0 <= k < all.len() implies !(#[trigger] all[k]).contains(c) by {
            if k > 0 {
                assert(all[k] == split(rest, c)[k - 1]);
            }
        }
        lemma_join_first(head, split(rest, c), seq![c]);
        assert(s =~= head + seq![c] + rest);
    }
}

/// The first of some texts comes first when they are joined, and then the separator.
pub proof fn lemma_join_first(first: Seq<char>, rest: Seq<Seq<char>>, sep: Seq<char>)
    requires
        rest.len() > 0,
    ensures
        join(seq![first] + rest, sep) == first + sep + join(rest, sep),
    decreases rest.len(),
{
    let all = seq![first] + rest;
    assert(all.last() == rest.last());
    if rest.len() == 1 {
        assert(all.drop_last() =~= seq![first]);
        assert(join(seq![first], sep) == first);
    } else {
        assert(all.drop_last() =~= seq![first] + rest.drop_last());
        lemma_join_first(first, rest.drop_last(), sep);
        assert(first + sep + join(rest.drop_last(), sep) + sep + rest.last() =~= first + sep + join(
            rest,
            sep,
        ));
    }
}

/// A line ends at a line feed, with or without a carriage return before it, and the lines of what
/// follows come after it. The last line needs no line feed.
pub proof fn lines_come_apart(line: Seq<char>, rest: Seq<char>)
    requires
        !line.contains('\n'),
        line.len() > 0 ==> line.last() != '\r',
    ensures
        lines(line.push('\n') + rest) == seq![line] + lines(rest),
        lines(line.push('\r').push('\n') + rest) == seq![line] + lines(rest),
        line.len() > 0 ==> lines(line) == seq![line],
        lines(Seq::<char>::empty()) == Seq::<Seq<char>>::empty(),
{
    let s = line.push('\n') + rest;
    lemma_found_at(line, '\n', rest);
    assert(s.take(line.len() as int) =~= line);
    assert(s.skip(line.len() as int + 1) =~= rest);
    let with = line.push('\r');
    assert(!with.contains('\n')) by {
        if with.contains('\n') {
            let k = choose|k: int| 0 <= k < with.len() && with[k] == '\n';
            assert(line[k] == '\n');
        }
    }
    let t = with.push('\n') + rest;
    lemma_found_at(with, '\n', rest);
    assert(t.take(with.len() as int) =~= with);
    assert(t.skip(with.len() as int + 1) =~= rest);
    assert(with.drop_last() =~= line);
}

/// No line holds a line feed.
pub proof fn lines_hold_no_break(s: Seq<char>, i: int)
    requires
        0 <= i < lines(s).len(),
    ensures
        !lines(s)[i].contains('\n'),
    decreases s.len(),
{
    lemma_find_char(s, '\n');
    let k = find_char(s, '\n');
    if k >= s.len() {
        assert(!s.contains('\n'));
    } else if i == 0 {
        let first = without_return(s.take(k));
        if first.contains('\n') {
            let j = choose|j: int| 0 <= j < first.len() && first[j] == '\n';
            assert(s[j] == '\n');
        }
    } else {
        assert(lines(s)[i] == lines(s.skip(k + 1))[i - 1]);
        lines_hold_no_break(s.skip(k + 1), i - 1);
    }
}

proof fn lemma_word_ends_at(word: Seq<char>, rest: Seq<char>)
    requires
        forall|i: int| 0 <= i < word.len() ==> !is_space(#[trigger] word[i]),
        rest.len() > 0 ==> is_space(rest[0]),
    ensures
        word_end(word + rest) == word.len(),
    decreases word.len(),
{
    let s = word + rest;
    if word.len() > 0 {
        assert(s[0] == word[0]);
        assert(s.skip(1) =~= word.skip(1) + rest);
        assert forall|i: int| 0 <= i < word.skip(1).len() implies !is_space(
            #[trigger] word.skip(1)[i],
        ) by {
            assert(!is_space(word[i + 1]));
        }
        lemma_word_ends_at(word.skip(1), rest);
    } else {
        assert(s =~= rest);
    }
}

/// The words of a text are what white space sets apart: a word between white space comes before the
/// words that follow it, and white space alone holds none.
pub proof fn words_come_apart(before: Seq<char>, word: Seq<char>, rest: Seq<char>)
    requires
        all_space(before),
        word.len() > 0,
        forall|i: int| 0 <= i < word.len() ==> !is_space(#[trigger] word[i]),
        rest.len() > 0 ==> is_space(rest[0]),
    ensures
        words(before + word + rest) == seq![word] + words(rest),
        words(before) == Seq::<Seq<char>>::empty(),
{
    let t = word + rest;
    assert(before + word + rest =~= before + t);
    assert(t[0] == word[0]);
    lemma_start_dropped(before, t);
    lemma_word_ends_at(word, rest);
    assert(t.take(word.len() as int) =~= word);
    assert(t.skip(word.len() as int) =~= rest);
    assert(before =~= before + Seq::<char>::empty());
    lemma_start_dropped(before, Seq::<char>::empty());
}

/// A pattern is found where it first occurs: it does not begin at any earlier place.
pub proof fn the_first_occurrence_is_found(s: Seq<char>, p: Seq<char>, i: int)
    requires
        find(s, p) is Some,
        0 <= i < find(s, p)->0,
    ensures
        !p.is_prefix_of(s.skip(i)),
    decreases s.len(),
{
    lemma_find(s, p);
    if i == 0 {
        assert(s.skip(0) =~= s);
    } else {
        assert(s.skip(1).skip(i - 1) =~= s.skip(i));
        the_first_occurrence_is_found(s.skip(1), p, i - 1);
    }
}

/// The last of a character is found: it stands there, and nowhere behind.
pub proof fn the_last_one_is_found(s: Seq<char>, c: char)
    ensures
        match rfind_char(s, c) {
            Some(i) => 0 <= i < s.len() && s[i] == c && forall|j: int|
                i < j < s.len() ==> s[j] != c,
            None => !s.contains(c),
        },
    decreases s.len(),
{
    if s.len() > 0 && s.last() != c {
        the_last_one_is_found(s.drop_last(), c);
        let rest = s.drop_last();
        match rfind_char(rest, c) {
            Some(i) => {
                assert(rest[i] == s[i]);
                assert forall|j: int| i < j < s.len() implies s[j] != c by {
                    if j < rest.len() {
                        assert(rest[j] == s[j]);
                    }
                }
            },
            None => {
                if s.contains(c) {
                    let k = choose|k: int| 0 <= k < s.len() && s[k] == c;
                    assert(rest[k] == c);
                }
            },
        }
    }
}

/// ASCII letters in lower case are as they were, and so is whatever is no letter; an upper-case letter
/// becomes the one of the same place in the alphabet.
pub proof fn lower_case_keeps_the_letter(c: char)
    ensures
        'A' <= c <= 'Z' ==> 'a' <= ascii_lower(c) <= 'z' && ascii_lower(c) as int - 'a' as int
            == c as int - 'A' as int,
        !('A' <= c <= 'Z') ==> ascii_lower(c) == c,
{
}

/// A text is a single word: not empty, and without white space.
pub open spec fn is_word(s: Seq<char>) -> bool {
    s.len() > 0 && forall|i: int| 0 <= i < s.len() ==> !is_space(#[trigger] s[i])
}

/// Words joined by spaces are read back as the words they were.
pub proof fn joined_words_are_read_back(parts: Seq<Seq<char>>)
    requires
        forall|i: int| 0 <= i < parts.len() ==> is_word(#[trigger] parts[i]),
    ensures
        words(join(parts, " "@)) == parts,
    decreases parts.len(),
{
    reveal_strlit(" ");
    let none = Seq::<char>::empty();
    if parts.len() == 0 {
        assert(trim_start(none) == none);
        assert(join(parts, " "@) =~= none);
        assert(words(none) =~= parts);
    } else if parts.len() == 1 {
        assert(is_word(parts[0]));
        words_come_apart(none, parts[0], none);
        assert(none + parts[0] + none =~= parts[0]);
        assert(words(none) == Seq::<Seq<char>>::empty());
        assert(seq![parts[0]] + words(none) =~= parts);
    } else {
        let rest = parts.skip(1);
        assert(parts =~= seq![parts[0]] + rest);
        lemma_join_first(parts[0], rest, " "@);
        assert forall|i: int| 0 <= i < rest.len() implies is_word(#[trigger] rest[i]) by {
            assert(is_word(parts[i + 1]));
        }
        joined_words_are_read_back(rest);
        assert(is_word(parts[0]));
        let tail = " "@ + join(rest, " "@);
        assert(none + parts[0] + tail =~= parts[0] + " "@ + join(rest, " "@));
        words_come_apart(none, parts[0], tail);
        lemma_space_before_words(join(rest, " "@));
    }
}

proof fn lemma_space_before_words(s: Seq<char>)
    ensures
        words(" "@ + s) == words(s),
{
    reveal_strlit(" ");
    let t = " "@ + s;
    assert(t.skip(1) =~= s);
    assert(trim_start(t) == trim_start(s));
}

/// A pattern that begins at a place, and at none before it, is found there.
pub proof fn a_pattern_is_found_where_it_begins(s: Seq<char>, p: Seq<char>, k: int)
    requires
        0 <= k <= s.len(),
        p.is_prefix_of(s.skip(k)),
        forall|j: int| 0 <= j < k ==> !p.is_prefix_of(#[trigger] s.skip(j)),
    ensures
        find(s, p) == Some(k),
    decreases k,
{
    assert(s.skip(0) =~= s);
    if k > 0 {
        assert(!p.is_prefix_of(s.skip(0)));
        assert(s.len() > 0);
        assert(s.skip(1).skip(k - 1) =~= s.skip(k));
        assert forall|j: int| 0 <= j < k - 1 implies !p.is_prefix_of(#[trigger] s.skip(1).skip(j)) by {
            assert(s.skip(1).skip(j) =~= s.skip(j + 1));
        }
        a_pattern_is_found_where_it_begins(s.skip(1), p, k - 1);
    }
}

/// White space at the front of a text is dropped up to the first character that is none.
pub proof fn leading_space_is_dropped(before: Seq<char>, s: Seq<char>)
    requires
        all_space(before),
        s.len() > 0 ==> !is_space(s[0]),
    ensures
        trim_start(before + s) == s,
{
    lemma_start_dropped(before, s);
}

} // verus!
