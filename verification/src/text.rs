//! Characters and strings: the models that the contracts of this crate speak of, and the
//! executable functions that compute them.
use vstd::prelude::*;

verus! {

/// `String::push` adds the character to the end of the string.
pub assume_specification[ String::push ](s: &mut String, c: char)
    ensures
        final(s)@ == old(s)@.push(c),
;

/// `==` on string slices compares them character by character.
pub assume_specification[ <str as PartialEq<str>>::eq ](a: &str, b: &str) -> (same: bool)
    ensures
        same == (a@ == b@),
;

// ---------------------------------------------------------------------------------------------
// Characters
// ---------------------------------------------------------------------------------------------

/// Bytes that the character takes in UTF-8.
pub open spec fn utf8_width(c: char) -> nat {
    if (c as u32) < 0x80 {
        1
    } else if (c as u32) < 0x800 {
        2
    } else if (c as u32) < 0x10000 {
        3
    } else {
        4
    }
}

/// Code units that the character takes in UTF-16.
pub open spec fn utf16_width(c: char) -> nat {
    if (c as u32) < 0x10000 {
        1
    } else {
        2
    }
}

pub open spec fn ascii_upper(c: char) -> bool {
    'A' <= c <= 'Z'
}

pub open spec fn ascii_lower(c: char) -> bool {
    'a' <= c <= 'z'
}

pub open spec fn ascii_digit(c: char) -> bool {
    '0' <= c <= '9'
}

pub open spec fn ascii_letter(c: char) -> bool {
    ascii_upper(c) || ascii_lower(c)
}

pub open spec fn ascii_alphanumeric(c: char) -> bool {
    ascii_letter(c) || ascii_digit(c)
}

/// The control characters of Unicode (general category Cc).
pub open spec fn control(c: char) -> bool {
    (c as u32) < 0x20 || 0x7f <= (c as u32) < 0xa0
}

/// The characters with the Unicode property `White_Space`.
pub open spec fn whitespace(c: char) -> bool {
    let u = c as u32;
    ||| 0x09 <= u <= 0x0d
    ||| u == 0x20
    ||| u == 0x85
    ||| u == 0xa0
    ||| u == 0x1680
    ||| 0x2000 <= u <= 0x200a
    ||| u == 0x2028
    ||| u == 0x2029
    ||| u == 0x202f
    ||| u == 0x205f
    ||| u == 0x3000
}

/// The lower case of an ASCII capital letter; every other character itself.
pub open spec fn lowered(c: char) -> char {
    if ascii_upper(c) {
        ((c as u8) + 32) as char
    } else {
        c
    }
}

pub fn char_utf8_width(c: char) -> (n: u64)
    ensures
        n == utf8_width(c),
        1 <= n <= 4,
{
    let u: u32 = c as u32;
    if u < 0x80 {
        1
    } else if u < 0x800 {
        2
    } else if u < 0x10000 {
        3
    } else {
        4
    }
}

pub fn is_ascii_upper(c: char) -> (b: bool)
    ensures
        b == ascii_upper(c),
{
    'A' <= c && c <= 'Z'
}

pub fn is_ascii_lower(c: char) -> (b: bool)
    ensures
        b == ascii_lower(c),
{
    'a' <= c && c <= 'z'
}

pub fn is_ascii_digit(c: char) -> (b: bool)
    ensures
        b == ascii_digit(c),
{
    '0' <= c && c <= '9'
}

pub fn is_ascii_letter(c: char) -> (b: bool)
    ensures
        b == ascii_letter(c),
{
    is_ascii_upper(c) || is_ascii_lower(c)
}

pub fn is_ascii_alphanumeric(c: char) -> (b: bool)
    ensures
        b == ascii_alphanumeric(c),
{
    is_ascii_letter(c) || is_ascii_digit(c)
}

pub fn is_control(c: char) -> (b: bool)
    ensures
        b == control(c),
{
    let u: u32 = c as u32;
    u < 0x20 || (0x7f <= u && u < 0xa0)
}

pub fn is_whitespace(c: char) -> (b: bool)
    ensures
        b == whitespace(c),
{
    let u: u32 = c as u32;
    (0x09 <= u && u <= 0x0d) || u == 0x20 || u == 0x85 || u == 0xa0 || u == 0x1680 || (0x2000 <= u
        && u <= 0x200a) || u == 0x2028 || u == 0x2029 || u == 0x202f || u == 0x205f || u == 0x3000
}

pub fn to_lowered(c: char) -> (l: char)
    ensures
        l == lowered(c),
{
    if is_ascii_upper(c) {
        ((c as u8) + 32) as char
    } else {
        c
    }
}

// ---------------------------------------------------------------------------------------------
// Conversions
// ---------------------------------------------------------------------------------------------

/// The characters of every string of the sequence.
pub open spec fn texts(strings: Seq<String>) -> Seq<Seq<char>> {
    strings.map_values(|s: String| s@)
}

/// The characters of an optional string.
pub open spec fn opt_text(s: Option<String>) -> Option<Seq<char>> {
    match s {
        Some(s) => Some(s@),
        None => None,
    }
}

/// The characters of an optional string slice.
pub open spec fn opt_str(s: Option<&str>) -> Option<Seq<char>> {
    match s {
        Some(s) => Some(s@),
        None => None,
    }
}

/// The characters of a string slice in order.
pub fn chars_of(s: &str) -> (out: Vec<char>)
    ensures
        out@ == s@,
{
    let mut out: Vec<char> = Vec::new();
    for c in it: s.chars()
        invariant
            it.seq() == s@,
            out@ == s@.take(it.index() as int),
    {
        out.push(c);
    }
    out
}

/// The string made of the characters `start..end`.
pub fn string_of(chars: &[char], start: usize, end: usize) -> (out: String)
    requires
        start <= end <= chars@.len(),
    ensures
        out@ == chars@.subrange(start as int, end as int),
{
    let mut out = String::new();
    let mut i: usize = start;
    while i < end
        invariant
            start <= i <= end <= chars@.len(),
            out@ == chars@.subrange(start as int, i as int),
        decreases end - i,
    {
        out.push(chars[i]);
        i += 1;
    }
    out
}

/// The string made of all the characters.
pub fn collect(chars: &[char]) -> (out: String)
    ensures
        out@ == chars@,
{
    string_of(chars, 0, chars.len())
}

/// Whether the two strings hold the same characters.
pub fn same(a: &str, b: &str) -> (equal: bool)
    ensures
        equal == (a@ == b@),
{
    a.eq(b)
}

/// Whether the optional string is present and holds exactly these characters.
pub fn is_text(a: &Option<String>, b: &str) -> (equal: bool)
    ensures
        equal == (opt_text(*a) == Some(b@)),
{
    match a {
        Some(s) => same(s.as_str(), b),
        None => false,
    }
}

/// A copy of an optional string.
pub fn copy_opt(s: &Option<String>) -> (out: Option<String>)
    ensures
        opt_text(out) == opt_text(*s),
{
    match s {
        Some(s) => Some(s.clone()),
        None => None,
    }
}

/// A copy of a list of strings.
pub fn copy_all(list: &Vec<String>) -> (out: Vec<String>)
    ensures
        texts(out@) == texts(list@),
{
    let mut out: Vec<String> = Vec::new();
    let mut i: usize = 0;
    while i < list.len()
        invariant
            i <= list@.len(),
            out@.len() == i,
            texts(out@) == texts(list@).take(i as int),
        decreases list@.len() - i,
    {
        out.push(list[i].clone());
        assert(texts(out@) =~= texts(list@).take(i + 1));
        i += 1;
    }
    out
}

/// Whether one of the strings of the list holds exactly these characters.
pub fn list_has(list: &Vec<String>, s: &str) -> (found: bool)
    ensures
        found == texts(list@).contains(s@),
{
    let mut i: usize = 0;
    while i < list.len()
        invariant
            i <= list@.len(),
            forall|k: int| 0 <= k < i ==> texts(list@)[k] != s@,
        decreases list@.len() - i,
    {
        if same(list[i].as_str(), s) {
            assert(texts(list@)[i as int] == s@);
            return true;
        }
        i += 1;
    }
    false
}

// ---------------------------------------------------------------------------------------------
// Lengths
// ---------------------------------------------------------------------------------------------

/// Bytes that the characters take in UTF-8.
pub open spec fn byte_len(s: Seq<char>) -> nat
    decreases s.len(),
{
    if s.len() == 0 {
        0
    } else {
        byte_len(s.drop_last()) + utf8_width(s.last())
    }
}

/// Code units that the characters take in UTF-16.
pub open spec fn utf16_units(s: Seq<char>) -> nat
    decreases s.len(),
{
    if s.len() == 0 {
        0
    } else {
        utf16_units(s.drop_last()) + utf16_width(s.last())
    }
}

pub proof fn lemma_byte_len_bounds(s: Seq<char>)
    ensures
        s.len() <= byte_len(s) <= 4 * s.len(),
    decreases s.len(),
{
    if s.len() > 0 {
        lemma_byte_len_bounds(s.drop_last());
    }
}

pub proof fn lemma_byte_len_add(a: Seq<char>, b: Seq<char>)
    ensures
        byte_len(a + b) == byte_len(a) + byte_len(b),
    decreases b.len(),
{
    if b.len() == 0 {
        assert(a + b =~= a);
    } else {
        lemma_byte_len_add(a, b.drop_last());
        assert((a + b).drop_last() =~= a + b.drop_last());
    }
}

/// ASCII characters take one byte each.
pub proof fn lemma_byte_len_ascii(s: Seq<char>)
    requires
        forall|i: int| 0 <= i < s.len() ==> (#[trigger] s[i] as u32) < 0x80,
    ensures
        byte_len(s) == s.len(),
    decreases s.len(),
{
    if s.len() > 0 {
        assert forall|i: int| 0 <= i < s.drop_last().len() implies (
        #[trigger] s.drop_last()[i] as u32) < 0x80 by {
            assert(s.drop_last()[i] == s[i]);
        }
        lemma_byte_len_ascii(s.drop_last());
        assert((s[s.len() - 1] as u32) < 0x80);
    }
}

/// The longer of two prefixes takes at least as many bytes.
pub proof fn lemma_byte_len_take(s: Seq<char>, i: int, j: int)
    requires
        0 <= i <= j <= s.len(),
    ensures
        byte_len(s.take(i)) <= byte_len(s.take(j)),
        j > i ==> byte_len(s.take(i)) < byte_len(s.take(j)),
{
    assert(s.take(j) =~= s.take(i) + s.subrange(i, j));
    lemma_byte_len_add(s.take(i), s.subrange(i, j));
    lemma_byte_len_bounds(s.subrange(i, j));
}

/// The number of bytes that the characters take in UTF-8.
pub fn byte_count(chars: &[char]) -> (n: u128)
    ensures
        n == byte_len(chars@),
        n <= 4 * chars@.len(),
{
    let mut n: u128 = 0;
    let mut i: usize = 0;
    while i < chars.len()
        invariant
            i <= chars@.len(),
            n == byte_len(chars@.take(i as int)),
            n <= 4 * i,
        decreases chars@.len() - i,
    {
        assert(chars@.take(i + 1).drop_last() =~= chars@.take(i as int));
        n = n + char_utf8_width(chars[i]) as u128;
        i += 1;
    }
    assert(chars@.take(i as int) =~= chars@);
    n
}

/// The number of code units that the characters take in UTF-16.
pub fn utf16_count(chars: &[char]) -> (n: u128)
    ensures
        n == utf16_units(chars@),
        n <= 2 * chars@.len(),
{
    let mut n: u128 = 0;
    let mut i: usize = 0;
    while i < chars.len()
        invariant
            i <= chars@.len(),
            n == utf16_units(chars@.take(i as int)),
            n <= 2 * i,
        decreases chars@.len() - i,
    {
        assert(chars@.take(i + 1).drop_last() =~= chars@.take(i as int));
        let width: u128 = if (chars[i] as u32) < 0x10000 {
            1
        } else {
            2
        };
        n = n + width;
        i += 1;
    }
    assert(chars@.take(i as int) =~= chars@);
    n
}

/// How many characters the longest prefix of at most `limit` bytes has.
pub open spec fn fitting(s: Seq<char>, limit: nat) -> int
    decreases s.len(),
{
    if byte_len(s) <= limit {
        s.len() as int
    } else {
        fitting(s.drop_last(), limit)
    }
}

/// The longest prefix of at most `limit` bytes.
pub open spec fn byte_prefix(s: Seq<char>, limit: nat) -> Seq<char> {
    s.take(fitting(s, limit))
}

/// The prefix that `fitting` counts fits, and with one character more it does not.
pub proof fn lemma_fitting(s: Seq<char>, limit: nat)
    ensures
        0 <= fitting(s, limit) <= s.len(),
        byte_len(s.take(fitting(s, limit))) <= limit,
        fitting(s, limit) < s.len() ==> byte_len(s.take(fitting(s, limit) + 1)) > limit,
    decreases s.len(),
{
    if byte_len(s) <= limit {
        assert(s.take(s.len() as int) =~= s);
    } else {
        lemma_fitting(s.drop_last(), limit);
        let n = fitting(s.drop_last(), limit);
        assert(s.drop_last().take(n) =~= s.take(n));
        if n < s.drop_last().len() {
            assert(s.drop_last().take(n + 1) =~= s.take(n + 1));
        } else {
            assert(s.take(n + 1) =~= s);
        }
    }
}

/// A number of characters whose prefix fits, and with one more does not, is `fitting`.
pub proof fn lemma_fitting_unique(s: Seq<char>, limit: nat, n: int)
    requires
        0 <= n <= s.len(),
        byte_len(s.take(n)) <= limit,
        n < s.len() ==> byte_len(s.take(n + 1)) > limit,
    ensures
        fitting(s, limit) == n,
{
    lemma_fitting(s, limit);
    let m = fitting(s, limit);
    if m < n {
        lemma_byte_len_take(s, m + 1, n);
    } else if m > n {
        lemma_byte_len_take(s, n + 1, m);
    }
}

/// How many characters the longest prefix of at most `limit` bytes has.
pub fn count_fitting(chars: &[char], limit: u64) -> (n: usize)
    ensures
        n == fitting(chars@, limit as nat),
        n <= chars@.len(),
{
    let mut used: u128 = 0;
    let mut i: usize = 0;
    while i < chars.len()
        invariant
            i <= chars@.len(),
            used == byte_len(chars@.take(i as int)),
            used <= limit,
        decreases chars@.len() - i,
    {
        assert(chars@.take(i + 1).drop_last() =~= chars@.take(i as int));
        let next: u128 = used + char_utf8_width(chars[i]) as u128;
        if next > limit as u128 {
            proof {
                lemma_fitting_unique(chars@, limit as nat, i as int);
            }
            return i;
        }
        used = next;
        i += 1;
    }
    proof {
        lemma_fitting_unique(chars@, limit as nat, i as int);
    }
    i
}

/// The longest prefix of at most `limit` bytes.
pub fn take_bytes(s: &str, limit: u64) -> (out: String)
    ensures
        out@ == byte_prefix(s@, limit as nat),
        byte_len(out@) <= limit,
{
    let chars = chars_of(s);
    let n: usize = count_fitting(&chars, limit);
    proof {
        lemma_fitting(s@, limit as nat);
    }
    let out = string_of(&chars, 0, n);
    assert(out@ =~= s@.take(n as int));
    out
}

// ---------------------------------------------------------------------------------------------
// Searching
// ---------------------------------------------------------------------------------------------

/// Whether the needle stands in the text from position `i` on.
pub open spec fn occurs_at(s: Seq<char>, needle: Seq<char>, i: int) -> bool {
    0 <= i && i + needle.len() <= s.len() && s.subrange(i, i + needle.len()) == needle
}

/// Whether the needle stands anywhere in the text.
pub open spec fn contains(s: Seq<char>, needle: Seq<char>) -> bool {
    exists|i: int| occurs_at(s, needle, i)
}

/// `i` is the first position at or after `from` at which the needle stands.
pub open spec fn first_at(s: Seq<char>, needle: Seq<char>, from: int, i: int) -> bool {
    from <= i && occurs_at(s, needle, i) && forall|j: int|
        from <= j < i ==> !#[trigger] occurs_at(s, needle, j)
}

/// The first position at or after `from` at which the needle stands.
pub open spec fn find_from(s: Seq<char>, needle: Seq<char>, from: int) -> Option<int> {
    if exists|i: int| first_at(s, needle, from, i) {
        Some(choose|i: int| first_at(s, needle, from, i))
    } else {
        None
    }
}

/// Whether the text begins with the prefix.
pub open spec fn starts_with(s: Seq<char>, prefix: Seq<char>) -> bool {
    occurs_at(s, prefix, 0)
}

/// Whether the text ends with the suffix.
pub open spec fn ends_with(s: Seq<char>, suffix: Seq<char>) -> bool {
    s.len() >= suffix.len() && s.subrange(s.len() - suffix.len(), s.len() as int) == suffix
}

/// A position is the first one where it is one and none stands before it.
pub proof fn lemma_first_at(s: Seq<char>, needle: Seq<char>, from: int, i: int)
    requires
        first_at(s, needle, from, i),
    ensures
        find_from(s, needle, from) == Some(i),
{
    let k = choose|k: int| first_at(s, needle, from, k);
    assert(first_at(s, needle, from, k));
    if k < i {
        assert(!occurs_at(s, needle, k));
    } else if i < k {
        assert(!occurs_at(s, needle, i));
    }
}

/// What `find_from` gives: the first place of the needle, or none at all.
pub proof fn lemma_find(s: Seq<char>, needle: Seq<char>, from: int)
    requires
        0 <= from,
    ensures
        match find_from(s, needle, from) {
            Some(i) => first_at(s, needle, from, i),
            None => forall|i: int| from <= i ==> !#[trigger] occurs_at(s, needle, i),
        },
{
    if exists|i: int| from <= i && #[trigger] occurs_at(s, needle, i) {
        let i = choose|i: int| from <= i && #[trigger] occurs_at(s, needle, i);
        lemma_first_exists(s, needle, from, i);
    }
}

proof fn lemma_first_exists(s: Seq<char>, needle: Seq<char>, from: int, i: int)
    requires
        0 <= from <= i,
        occurs_at(s, needle, i),
    ensures
        exists|k: int| first_at(s, needle, from, k),
    decreases i - from,
{
    if exists|j: int| from <= j < i && #[trigger] occurs_at(s, needle, j) {
        let j = choose|j: int| from <= j < i && #[trigger] occurs_at(s, needle, j);
        lemma_first_exists(s, needle, from, j);
    } else {
        assert(first_at(s, needle, from, i));
    }
}

/// Whether the needle stands in the text from position `i` on.
pub fn matches_at(s: &[char], needle: &[char], i: usize) -> (found: bool)
    ensures
        found == occurs_at(s@, needle@, i as int),
{
    if needle.len() > s.len() || i > s.len() - needle.len() {
        return false;
    }
    let total: usize = s.len();
    let mut k: usize = 0;
    while k < needle.len()
        invariant
            k <= needle@.len(),
            i + needle@.len() <= s@.len() == total,
            s@.subrange(i as int, i + k) == needle@.take(k as int),
        decreases needle@.len() - k,
    {
        if s[i + k] != needle[k] {
            assert(s@.subrange(i as int, i + needle@.len())[k as int] != needle@[k as int]);
            return false;
        }
        assert(s@.subrange(i as int, i + k + 1) =~= s@.subrange(i as int, i + k).push(
            s@[i + k],
        ));
        assert(needle@.take(k + 1) =~= needle@.take(k as int).push(needle@[k as int]));
        k += 1;
    }
    assert(needle@.take(k as int) =~= needle@);
    true
}

/// The first position at or after `from` at which the needle stands.
pub fn find_in(s: &[char], needle: &[char], from: usize) -> (found: Option<usize>)
    ensures
        match found {
            Some(i) => find_from(s@, needle@, from as int) == Some(i as int) && first_at(
                s@,
                needle@,
                from as int,
                i as int,
            ),
            None => find_from(s@, needle@, from as int) is None && forall|i: int|
                from <= i ==> !#[trigger] occurs_at(s@, needle@, i),
        },
{
    let mut i: usize = from;
    while i <= s.len()
        invariant
            from <= i,
            i <= s@.len() + 1 || i == from,
            forall|j: int| from <= j < i ==> !#[trigger] occurs_at(s@, needle@, j),
        decreases s@.len() + 1 - i,
    {
        if matches_at(s, needle, i) {
            proof {
                lemma_first_at(s@, needle@, from as int, i as int);
            }
            return Some(i);
        }
        if i == s.len() {
            assert(forall|j: int| from <= j ==> !#[trigger] occurs_at(s@, needle@, j));
            return None;
        }
        i += 1;
    }
    assert(forall|j: int| from <= j ==> !#[trigger] occurs_at(s@, needle@, j));
    None
}

/// Whether the needle stands anywhere in the text.
pub fn contains_chars(s: &[char], needle: &[char]) -> (found: bool)
    ensures
        found == contains(s@, needle@),
{
    match find_in(s, needle, 0) {
        Some(i) => {
            assert(occurs_at(s@, needle@, i as int));
            true
        },
        None => false,
    }
}

/// Whether the needle stands anywhere in the text.
pub fn contains_str(s: &str, needle: &str) -> (found: bool)
    ensures
        found == contains(s@, needle@),
{
    contains_chars(&chars_of(s), &chars_of(needle))
}

/// Whether the text begins with the prefix.
pub fn starts_with_str(s: &str, prefix: &str) -> (found: bool)
    ensures
        found == starts_with(s@, prefix@),
{
    matches_at(&chars_of(s), &chars_of(prefix), 0)
}

/// Whether the text ends with the suffix.
pub fn ends_with_str(s: &str, suffix: &str) -> (found: bool)
    ensures
        found == ends_with(s@, suffix@),
{
    let chars = chars_of(s);
    let tail = chars_of(suffix);
    if chars.len() < tail.len() {
        false
    } else {
        matches_at(&chars, &tail, chars.len() - tail.len())
    }
}

/// What follows the prefix, where the text begins with it.
pub fn strip_prefix_str(s: &str, prefix: &str) -> (rest: Option<String>)
    ensures
        rest is Some <==> starts_with(s@, prefix@),
        rest matches Some(rest) ==> rest@ == s@.skip(prefix@.len() as int),
{
    let chars = chars_of(s);
    let head = chars_of(prefix);
    if matches_at(&chars, &head, 0) {
        let rest = string_of(&chars, head.len(), chars.len());
        assert(rest@ =~= s@.skip(prefix@.len() as int));
        Some(rest)
    } else {
        None
    }
}

/// The text with its ASCII capital letters replaced by their lower case.
pub open spec fn lower(s: Seq<char>) -> Seq<char> {
    s.map_values(|c: char| lowered(c))
}

/// The characters with the ASCII capital letters replaced by their lower case.
pub fn lower_chars(s: &[char]) -> (out: Vec<char>)
    ensures
        out@ == lower(s@),
{
    let mut out: Vec<char> = Vec::new();
    let mut i: usize = 0;
    while i < s.len()
        invariant
            i <= s@.len(),
            out@ == lower(s@.take(i as int)),
        decreases s@.len() - i,
    {
        out.push(to_lowered(s[i]));
        assert(out@ =~= lower(s@.take(i + 1)));
        i += 1;
    }
    assert(s@.take(i as int) =~= s@);
    out
}

/// The text with its ASCII capital letters replaced by their lower case.
pub fn lower_str(s: &str) -> (out: String)
    ensures
        out@ == lower(s@),
{
    collect(&lower_chars(&chars_of(s)))
}

// ---------------------------------------------------------------------------------------------
// Trimming and splitting
// ---------------------------------------------------------------------------------------------

/// The text without its leading white space.
pub open spec fn trim_start(s: Seq<char>) -> Seq<char>
    decreases s.len(),
{
    if s.len() > 0 && whitespace(s[0]) {
        trim_start(s.drop_first())
    } else {
        s
    }
}

/// The text without its trailing white space.
pub open spec fn trim_end(s: Seq<char>) -> Seq<char>
    decreases s.len(),
{
    if s.len() > 0 && whitespace(s.last()) {
        trim_end(s.drop_last())
    } else {
        s
    }
}

/// The text without white space at either end.
pub open spec fn trim(s: Seq<char>) -> Seq<char> {
    trim_end(trim_start(s))
}

/// The text without white space at either end.
pub fn trim_chars(s: &[char]) -> (out: Vec<char>)
    ensures
        out@ == trim(s@),
{
    let mut start: usize = 0;
    assert(s@.skip(0) =~= s@);
    while start < s.len() && is_whitespace(s[start])
        invariant
            start <= s@.len(),
            trim_start(s@) == trim_start(s@.skip(start as int)),
        decreases s@.len() - start,
    {
        assert(s@.skip(start as int).drop_first() =~= s@.skip(start + 1));
        start += 1;
    }
    let ghost middle = s@.skip(start as int);
    assert(start < s@.len() ==> middle[0] == s@[start as int]);
    assert(trim_start(s@) == middle);
    let mut end: usize = s.len();
    assert(s@.subrange(start as int, end as int) =~= middle);
    while start < end && is_whitespace(s[end - 1])
        invariant
            start <= end <= s@.len(),
            trim_end(middle) == trim_end(s@.subrange(start as int, end as int)),
        decreases end - start,
    {
        assert(s@.subrange(start as int, end as int).drop_last() =~= s@.subrange(
            start as int,
            end - 1,
        ));
        end -= 1;
    }
    assert(start < end ==> s@.subrange(start as int, end as int).last() == s@[end - 1]);
    let mut out: Vec<char> = Vec::new();
    let mut i: usize = start;
    while i < end
        invariant
            start <= i <= end <= s@.len(),
            out@ == s@.subrange(start as int, i as int),
        decreases end - i,
    {
        out.push(s[i]);
        i += 1;
    }
    out
}

/// The text without white space at either end.
pub fn trim_str(s: &str) -> (out: String)
    ensures
        out@ == trim(s@),
{
    collect(&trim_chars(&chars_of(s)))
}

/// The parts of the text between the separators. A text without one is a single part.
pub open spec fn split_on(s: Seq<char>, separator: char) -> Seq<Seq<char>>
    decreases s.len(),
{
    if s.len() == 0 {
        seq![Seq::<char>::empty()]
    } else {
        let before = split_on(s.drop_last(), separator);
        if s.last() == separator {
            before.push(Seq::<char>::empty())
        } else {
            before.drop_last().push(before.last().push(s.last()))
        }
    }
}

/// A split text has at least one part.
pub proof fn lemma_split_on_some(s: Seq<char>, separator: char)
    ensures
        split_on(s, separator).len() > 0,
    decreases s.len(),
{
    if s.len() > 0 {
        lemma_split_on_some(s.drop_last(), separator);
    }
}

/// The parts of the text between the separators.
pub fn split_chars(s: &[char], separator: char) -> (parts: Vec<Vec<char>>)
    ensures
        parts@.len() == split_on(s@, separator).len(),
        forall|k: int|
            0 <= k < parts@.len() ==> (#[trigger] parts@[k])@ == split_on(s@, separator)[k],
{
    let mut parts: Vec<Vec<char>> = Vec::new();
    let mut current: Vec<char> = Vec::new();
    let mut i: usize = 0;
    while i < s.len()
        invariant
            i <= s@.len(),
            split_on(s@.take(i as int), separator).len() == parts@.len() + 1,
            forall|k: int|
                0 <= k < parts@.len() ==> (#[trigger] parts@[k])@ == split_on(
                    s@.take(i as int),
                    separator,
                )[k],
            current@ == split_on(s@.take(i as int), separator).last(),
        decreases s@.len() - i,
    {
        assert(s@.take(i + 1).drop_last() =~= s@.take(i as int));
        let c = s[i];
        if c == separator {
            parts.push(current);
            current = Vec::new();
        } else {
            current.push(c);
        }
        i += 1;
    }
    assert(s@.take(i as int) =~= s@);
    parts.push(current);
    parts
}

/// The texts of the list with the separator between them.
pub open spec fn join(parts: Seq<Seq<char>>, separator: Seq<char>) -> Seq<char>
    decreases parts.len(),
{
    if parts.len() == 0 {
        Seq::empty()
    } else if parts.len() == 1 {
        parts[0]
    } else {
        join(parts.drop_last(), separator) + separator + parts.last()
    }
}

/// The strings of the list with the separator between them.
pub fn join_strings(parts: &Vec<String>, separator: &str) -> (out: String)
    ensures
        out@ == join(texts(parts@), separator@),
{
    let mut out = String::new();
    let mut i: usize = 0;
    while i < parts.len()
        invariant
            i <= parts@.len(),
            out@ == join(texts(parts@).take(i as int), separator@),
        decreases parts@.len() - i,
    {
        let ghost prefix = texts(parts@).take(i + 1);
        assert(prefix.drop_last() =~= texts(parts@).take(i as int));
        assert(prefix.last() == parts@[i as int]@);
        if i > 0 {
            out.append(separator);
        }
        out.append(parts[i].as_str());
        if i == 0 {
            assert(out@ =~= prefix[0]);
        }
        i += 1;
    }
    assert(texts(parts@).take(i as int) =~= texts(parts@));
    out
}

/// The words of the text: the longest runs without white space.
pub open spec fn words(s: Seq<char>) -> Seq<Seq<char>>
    decreases s.len(),
{
    if s.len() == 0 {
        Seq::empty()
    } else {
        let before = words(s.drop_last());
        if whitespace(s.last()) {
            before
        } else if s.len() == 1 || whitespace(s[s.len() - 2]) {
            before.push(seq![s.last()])
        } else {
            before.drop_last().push(before.last().push(s.last()))
        }
    }
}

/// The words of the text.
pub fn split_words(s: &[char]) -> (out: Vec<String>)
    ensures
        texts(out@) == words(s@),
{
    let mut out: Vec<String> = Vec::new();
    let mut current: Vec<char> = Vec::new();
    let mut i: usize = 0;
    assert(texts(out@) =~= words(s@.take(0)));
    while i < s.len()
        invariant
            i <= s@.len(),
            current@.len() > 0 <==> i > 0 && !whitespace(s@[i - 1]),
            current@.len() == 0 ==> texts(out@) == words(s@.take(i as int)),
            current@.len() > 0 ==> texts(out@).push(current@) == words(s@.take(i as int)),
        decreases s@.len() - i,
    {
        let ghost longer = s@.take(i + 1);
        assert(longer.drop_last() =~= s@.take(i as int));
        assert(longer.last() == s@[i as int]);
        assert(i > 0 ==> longer[longer.len() - 2] == s@[i - 1]);
        let c = s[i];
        if is_whitespace(c) {
            if current.len() > 0 {
                let ghost before = out@;
                out.push(collect(&current));
                assert(texts(out@) =~= texts(before).push(current@));
                current = Vec::new();
            }
        } else {
            let ghost word = current@;
            current.push(c);
            proof {
                if word.len() == 0 {
                    assert(current@ =~= seq![c]);
                } else {
                    assert(words(s@.take(i as int)).drop_last() =~= texts(out@));
                }
            }
        }
        i += 1;
    }
    assert(s@.take(i as int) =~= s@);
    if current.len() > 0 {
        let ghost before = out@;
        out.push(collect(&current));
        assert(texts(out@) =~= texts(before).push(current@));
    }
    out
}

/// The last position at or before `from` at which the needle stands.
pub open spec fn find_last(s: Seq<char>, needle: Seq<char>, from: int) -> Option<int>
    decreases from + 1,
{
    if from < 0 {
        None
    } else if occurs_at(s, needle, from) {
        Some(from)
    } else {
        find_last(s, needle, from - 1)
    }
}

/// The last position at which the needle stands.
pub fn find_last_in(s: &[char], needle: &[char]) -> (found: Option<usize>)
    ensures
        match found {
            Some(i) => find_last(s@, needle@, s@.len() as int) == Some(i as int) && occurs_at(
                s@,
                needle@,
                i as int,
            ),
            None => find_last(s@, needle@, s@.len() as int) is None,
        },
{
    let mut i: usize = s.len();
    if matches_at(s, needle, i) {
        return Some(i);
    }
    while i > 0
        invariant
            i <= s@.len(),
            !occurs_at(s@, needle@, i as int),
            find_last(s@, needle@, s@.len() as int) == find_last(s@, needle@, i as int),
        decreases i,
    {
        i -= 1;
        if matches_at(s, needle, i) {
            return Some(i);
        }
    }
    assert(find_last(s@, needle@, -1) is None);
    None
}

/// The text with every occurrence of the needle, read from the left, replaced.
pub open spec fn replaced(s: Seq<char>, needle: Seq<char>, by: Seq<char>) -> Seq<char>
    decreases s.len(),
{
    if needle.len() == 0 {
        s
    } else {
        match find_from(s, needle, 0) {
            None => s,
            Some(i) => {
                proof {
                    lemma_find(s, needle, 0);
                }
                s.take(i) + by + replaced(s.skip(i + needle.len()), needle, by)
            },
        }
    }
}

/// The text with every occurrence of the needle, read from the left, replaced.
pub fn replace_all(s: &str, needle: &str, by: &str) -> (out: String)
    requires
        needle@.len() > 0,
    ensures
        out@ == replaced(s@, needle@, by@),
{
    let chars = chars_of(s);
    let key = chars_of(needle);
    let mut out = String::new();
    let mut start: usize = 0;
    assert(chars@.skip(0) =~= s@);
    assert(out@ + replaced(s@, needle@, by@) =~= replaced(s@, needle@, by@));
    loop
        invariant
            start <= chars@.len(),
            key@ == needle@,
            key@.len() > 0,
            out@ + replaced(chars@.skip(start as int), needle@, by@) == replaced(
                s@,
                needle@,
                by@,
            ),
        decreases chars@.len() - start,
    {
        let ghost rest = chars@.skip(start as int);
        match find_in(&chars, &key, start) {
            Some(i) => {
                proof {
                    lemma_find_skip(chars@, key@, start as int);
                }
                let ghost before = out@;
                out.append(string_of(&chars, start, i).as_str());
                out.append(by);
                assert(rest.take(i - start) =~= chars@.subrange(start as int, i as int));
                assert(rest.skip(i - start + key@.len()) =~= chars@.skip(i + key@.len()));
                assert(out@ + replaced(chars@.skip(i + key@.len()), needle@, by@) =~= before + (
                rest.take(i - start) + by@ + replaced(
                    rest.skip(i - start + key@.len()),
                    needle@,
                    by@,
                )));
                let total: usize = chars.len();
                start = i + key.len();
            },
            None => {
                proof {
                    lemma_find_skip(chars@, key@, start as int);
                }
                out.append(string_of(&chars, start, chars.len()).as_str());
                assert(chars@.subrange(start as int, chars@.len() as int) =~= rest);
                return out;
            },
        }
    }
}

/// Looking for the needle behind a place is looking for it in what stands there.
proof fn lemma_find_skip(s: Seq<char>, needle: Seq<char>, start: int)
    requires
        0 <= start <= s.len(),
    ensures
        find_from(s.skip(start), needle, 0) == (match find_from(s, needle, start) {
            Some(i) => Some(i - start),
            None => None,
        }),
{
    let rest = s.skip(start);
    lemma_find(s, needle, start);
    lemma_find(rest, needle, 0);
    assert forall|i: int| 0 <= i implies #[trigger] occurs_at(rest, needle, i) == occurs_at(
        s,
        needle,
        start + i,
    ) by {
        if i + needle.len() <= rest.len() {
            assert(rest.subrange(i, i + needle.len()) =~= s.subrange(
                start + i,
                start + i + needle.len(),
            ));
        }
    }
    match find_from(s, needle, start) {
        Some(i) => {
            assert(occurs_at(rest, needle, i - start));
            assert forall|j: int| 0 <= j < i - start implies !#[trigger] occurs_at(
                rest,
                needle,
                j,
            ) by {
                assert(!occurs_at(s, needle, start + j));
            }
            assert(first_at(rest, needle, 0, i - start));
            lemma_first_at(rest, needle, 0, i - start);
        },
        None => {
            match find_from(rest, needle, 0) {
                Some(j) => {
                    assert(occurs_at(s, needle, start + j));
                },
                None => {},
            }
        },
    }
}

/// Whether the first text comes before the second one or is the same, character by character.
pub open spec fn text_le(a: Seq<char>, b: Seq<char>) -> bool
    decreases a.len(),
{
    if a.len() == 0 {
        true
    } else if b.len() == 0 {
        false
    } else if a[0] == b[0] {
        text_le(a.drop_first(), b.drop_first())
    } else {
        a[0] < b[0]
    }
}

/// Whether the first text comes before the second one or is the same.
pub fn is_text_le(a: &str, b: &str) -> (le: bool)
    ensures
        le == text_le(a@, b@),
{
    let left = chars_of(a);
    let right = chars_of(b);
    let mut i: usize = 0;
    assert(left@.skip(0) =~= a@ && right@.skip(0) =~= b@);
    while i < left.len()
        invariant
            i <= left@.len(),
            i <= right@.len(),
            text_le(a@, b@) == text_le(left@.skip(i as int), right@.skip(i as int)),
        decreases left@.len() - i,
    {
        if i >= right.len() {
            return false;
        }
        assert(left@.skip(i as int)[0] == left@[i as int]);
        assert(right@.skip(i as int)[0] == right@[i as int]);
        assert(left@.skip(i as int).drop_first() =~= left@.skip(i + 1));
        assert(right@.skip(i as int).drop_first() =~= right@.skip(i + 1));
        if left[i] != right[i] {
            return left[i] < right[i];
        }
        i += 1;
    }
    true
}

/// The order of texts is total and transitive, and only a text itself comes both before and
/// behind it.
pub proof fn lemma_text_order(a: Seq<char>, b: Seq<char>, c: Seq<char>)
    ensures
        text_le(a, b) || text_le(b, a),
        text_le(a, b) && text_le(b, c) ==> text_le(a, c),
        text_le(a, b) && text_le(b, a) ==> a == b,
        text_le(a, a),
    decreases a.len() + b.len() + c.len(),
{
    if a.len() > 0 && b.len() > 0 && c.len() > 0 {
        lemma_text_order(a.drop_first(), b.drop_first(), c.drop_first());
        if a[0] == b[0] && text_le(a, b) && text_le(b, a) {
            assert(a =~= seq![a[0]] + a.drop_first());
            assert(b =~= seq![b[0]] + b.drop_first());
        }
    } else if a.len() > 0 && b.len() > 0 {
        lemma_text_order(a.drop_first(), b.drop_first(), c);
        if a[0] == b[0] && text_le(a, b) && text_le(b, a) {
            assert(a =~= seq![a[0]] + a.drop_first());
            assert(b =~= seq![b[0]] + b.drop_first());
        }
    } else if a.len() > 0 {
        lemma_text_order(a.drop_first(), b, c);
    } else if b.len() == 0 {
        assert(a =~= b);
    }
}

// ---------------------------------------------------------------------------------------------
// Numbers
// ---------------------------------------------------------------------------------------------

/// The digit character of a number below ten.
pub open spec fn digit(n: nat) -> char {
    ((n % 10) + 48) as char
}

/// The decimal digits of a number, without leading zeros.
pub open spec fn decimal(n: nat) -> Seq<char>
    decreases n,
{
    if n < 10 {
        seq![digit(n)]
    } else {
        decimal(n / 10).push(digit(n))
    }
}

/// The decimal digits of a number that may be negative.
pub open spec fn signed_decimal(n: int) -> Seq<char> {
    if n < 0 {
        seq!['-'] + decimal((-n) as nat)
    } else {
        decimal(n as nat)
    }
}

/// The value of a run of decimal digits.
pub open spec fn digits_value(s: Seq<char>) -> nat
    decreases s.len(),
{
    if s.len() == 0 {
        0
    } else {
        digits_value(s.drop_last()) * 10 + ((s.last() as u32 - 48) as nat)
    }
}

/// Whether the text is one or more ASCII digits.
pub open spec fn all_digits(s: Seq<char>) -> bool {
    s.len() > 0 && forall|i: int| 0 <= i < s.len() ==> ascii_digit(#[trigger] s[i])
}

fn decimal_chars(n: u128) -> (out: Vec<char>)
    ensures
        out@ == decimal(n as nat),
    decreases n,
{
    let low: u8 = ((n % 10) as u8) + 48;
    if n < 10 {
        let mut out: Vec<char> = Vec::new();
        out.push(low as char);
        assert(out@ =~= seq![digit(n as nat)]);
        out
    } else {
        let mut out = decimal_chars(n / 10);
        out.push(low as char);
        out
    }
}

/// The decimal digits of a number.
pub fn decimal_of(n: u128) -> (out: String)
    ensures
        out@ == decimal(n as nat),
{
    collect(&decimal_chars(n))
}

/// The decimal digits of a number that may be negative.
pub fn signed_decimal_of(n: i64) -> (out: String)
    ensures
        out@ == signed_decimal(n as int),
{
    if n < 0 {
        let magnitude: u128 = (-(n as i128)) as u128;
        let mut out = String::new();
        out.push('-');
        out.append(decimal_of(magnitude).as_str());
        assert(out@ =~= signed_decimal(n as int));
        out
    } else {
        decimal_of(n as u128)
    }
}

/// Reading back the decimal digits of a number gives the number.
pub proof fn law_decimals_read_back(n: nat)
    ensures
        all_digits(decimal(n)),
        digits_value(decimal(n)) == n,
    decreases n,
{
    if n < 10 {
        assert(decimal(n).drop_last() =~= Seq::<char>::empty());
        assert(digits_value(decimal(n).drop_last()) == 0);
    } else {
        law_decimals_read_back(n / 10);
        assert(decimal(n).drop_last() =~= decimal(n / 10));
    }
}

/// The value of a run of decimal digits, where it is one and fits.
pub fn parse_digits(s: &[char]) -> (value: Option<u64>)
    ensures
        value is Some <==> all_digits(s@) && digits_value(s@) <= u64::MAX,
        value matches Some(v) ==> v == digits_value(s@),
{
    if s.len() == 0 {
        return None;
    }
    let mut value: u64 = 0;
    let mut i: usize = 0;
    while i < s.len()
        invariant
            i <= s@.len(),
            value == digits_value(s@.take(i as int)),
            forall|k: int| 0 <= k < i ==> ascii_digit(#[trigger] s@[k]),
        decreases s@.len() - i,
    {
        if !is_ascii_digit(s[i]) {
            return None;
        }
        assert(s@.take(i + 1).drop_last() =~= s@.take(i as int));
        let next: u128 = value as u128 * 10 + (s[i] as u32 - 48) as u128;
        if next > u64::MAX as u128 {
            proof {
                lemma_digits_value_grows(s@, i + 1);
            }
            return None;
        }
        value = next as u64;
        i += 1;
    }
    assert(s@.take(i as int) =~= s@);
    Some(value)
}

proof fn lemma_digits_value_grows(s: Seq<char>, i: int)
    requires
        0 <= i <= s.len(),
    ensures
        digits_value(s.take(i)) <= digits_value(s),
    decreases s.len() - i,
{
    if i < s.len() {
        lemma_digits_value_grows(s, i + 1);
        assert(s.take(i + 1).drop_last() =~= s.take(i));
    } else {
        assert(s.take(i) =~= s);
    }
}

// ---------------------------------------------------------------------------------------------
// Bytes
// ---------------------------------------------------------------------------------------------

/// What `str::to_lowercase` gives for a text.
pub uninterp spec fn lowercase(s: Seq<char>) -> Seq<char>;

/// `str::to_lowercase`: the text in lower case, by the rules of Unicode.
#[verifier::external_body]
pub(crate) fn to_lowercase(s: &str) -> (out: String)
    ensures
        out@ == lowercase(s@),
{
    s.to_lowercase()
}

/// What `String::from_utf8_lossy` reads from bytes.
pub uninterp spec fn lossy_text(bytes: Seq<u8>) -> Seq<char>;

/// `String::from_utf8_lossy`: bytes that are valid UTF-8 give the text that they encode. What
/// stands for bytes that are not is left unsaid.
#[verifier::external_body]
pub(crate) fn from_utf8_lossy(bytes: &[u8]) -> (out: String)
    ensures
        out@ == lossy_text(bytes@),
        vstd::utf8::valid_utf8(bytes@) ==> out@ == vstd::utf8::decode_utf8(bytes@),
{
    String::from_utf8_lossy(bytes).into_owned()
}

/// The text of the error that `std::str::from_utf8` gives on bytes that are not valid UTF-8.
pub uninterp spec fn utf8_problem(bytes: Seq<u8>) -> Seq<char>;

/// `std::str::from_utf8`: the text that the bytes encode, where they are valid UTF-8, or else
/// the text of the error.
#[verifier::external_body]
pub(crate) fn read_utf8(bytes: &[u8]) -> (result: Result<String, String>)
    ensures
        match result {
            Ok(out) => vstd::utf8::valid_utf8(bytes@) && out@ == vstd::utf8::decode_utf8(bytes@),
            Err(error) => !vstd::utf8::valid_utf8(bytes@) && error@ == utf8_problem(bytes@),
        },
{
    std::str::from_utf8(bytes).map(str::to_owned).map_err(|error| error.to_string())
}

/// The text that the bytes encode, where they are valid UTF-8.
pub fn from_utf8(bytes: &[u8]) -> (out: Option<String>)
    ensures
        out is Some <==> vstd::utf8::valid_utf8(bytes@),
        out matches Some(out) ==> out@ == vstd::utf8::decode_utf8(bytes@),
{
    match read_utf8(bytes) {
        Ok(out) => Some(out),
        Err(_) => None,
    }
}

// ---------------------------------------------------------------------------------------------
// Laws of words and parts
// ---------------------------------------------------------------------------------------------

/// Every character of joined texts is a space or stands in one of them.
pub proof fn lemma_joined_chars(parts: Seq<Seq<char>>, i: int)
    requires
        0 <= i < join(parts, seq![' ']).len(),
    ensures
        join(parts, seq![' '])[i] == ' ' || exists|k: int, m: int|
            0 <= k < parts.len() && 0 <= m < parts[k].len() && join(parts, seq![' '])[i]
                == #[trigger] parts[k][m],
    decreases parts.len(),
{
    let all = join(parts, seq![' ']);
    if parts.len() == 1 {
        assert(all[i] == parts[0][i]);
    } else if parts.len() > 1 {
        let front = join(parts.drop_last(), seq![' ']);
        if i < front.len() {
            lemma_joined_chars(parts.drop_last(), i);
            assert(all[i] == front[i]);
            if front[i] != ' ' {
                let (k, m) = choose|k: int, m: int|
                    0 <= k < parts.drop_last().len() && 0 <= m < parts.drop_last()[k].len()
                        && front[i] == #[trigger] parts.drop_last()[k][m];
                assert(parts[k][m] == front[i]);
            }
        } else if i > front.len() {
            assert(all[i] == parts[parts.len() - 1][i - front.len() - 1]);
        }
    }
}

proof fn lemma_words_of_one(before: Seq<char>, word: Seq<char>)
    requires
        word.len() > 0,
        before.len() == 0 || whitespace(before.last()),
        forall|i: int| 0 <= i < word.len() ==> !whitespace(#[trigger] word[i]),
    ensures
        words(before + word) == words(before).push(word),
    decreases word.len(),
{
    let s = before + word;
    let front = word.drop_last();
    assert(s.drop_last() =~= before + front);
    assert(s.last() == word.last());
    assert(!whitespace(word[word.len() - 1]));
    if front.len() == 0 {
        assert(before + front =~= before);
        assert(seq![s.last()] =~= word);
        if before.len() > 0 {
            assert(s[s.len() - 2] == before.last());
        }
    } else {
        assert forall|i: int| 0 <= i < front.len() implies !whitespace(#[trigger] front[i]) by {
            assert(front[i] == word[i]);
        }
        lemma_words_of_one(before, front);
        assert(s[s.len() - 2] == word[word.len() - 2]);
        assert(!whitespace(word[word.len() - 2]));
        assert(words(before).push(front).drop_last() =~= words(before));
        assert(front.push(word.last()) =~= word);
    }
}

/// Words with a space between two of them are read back as these words.
pub proof fn law_joined_words_are_the_words(parts: Seq<Seq<char>>)
    requires
        forall|k: int| 0 <= k < parts.len() ==> (#[trigger] parts[k]).len() > 0,
        forall|k: int, i: int|
            0 <= k < parts.len() && 0 <= i < parts[k].len() ==> !whitespace(#[trigger] parts[k][i]),
    ensures
        words(join(parts, seq![' '])) == parts,
    decreases parts.len(),
{
    if parts.len() == 0 {
        assert(words(join(parts, seq![' '])) =~= parts);
    } else {
        let front = parts.drop_last();
        let last = parts[parts.len() - 1];
        assert forall|i: int| 0 <= i < last.len() implies !whitespace(#[trigger] last[i]) by {
            assert(!whitespace(parts[parts.len() - 1][i]));
        }
        if parts.len() == 1 {
            lemma_words_of_one(Seq::empty(), last);
            assert(Seq::<char>::empty() + last =~= last);
            assert(words(Seq::<char>::empty()).push(last) =~= parts);
        } else {
            assert forall|k: int| 0 <= k < front.len() implies (#[trigger] front[k]).len() > 0 by {
                assert(front[k] == parts[k]);
            }
            assert forall|k: int, i: int|
                0 <= k < front.len() && 0 <= i < front[k].len() implies !whitespace(
                #[trigger] front[k][i],
            ) by {
                assert(front[k][i] == parts[k][i]);
            }
            law_joined_words_are_the_words(front);
            let before = join(front, seq![' ']) + seq![' '];
            assert(before.drop_last() =~= join(front, seq![' ']));
            assert(whitespace(before.last()));
            assert(words(before) == front);
            lemma_words_of_one(before, last);
            assert(front.push(last) =~= parts);
        }
    }
}

proof fn lemma_trim_start(s: Seq<char>)
    ensures
        exists|n: int|
            #![trigger s.skip(n)]
            0 <= n <= s.len() && trim_start(s) == s.skip(n) && (forall|i: int|
                0 <= i < n ==> whitespace(#[trigger] s[i])) && (n < s.len() ==> !whitespace(s[n])),
    decreases s.len(),
{
    if s.len() > 0 && whitespace(s[0]) {
        let rest = s.drop_first();
        lemma_trim_start(rest);
        let n = choose|n: int|
            #![trigger rest.skip(n)]
            0 <= n <= rest.len() && trim_start(rest) == rest.skip(n) && (forall|i: int|
                0 <= i < n ==> whitespace(#[trigger] rest[i])) && (n < rest.len() ==> !whitespace(
                rest[n],
            ));
        assert(s.skip(n + 1) =~= rest.skip(n));
        assert forall|i: int| 0 <= i < n + 1 implies whitespace(#[trigger] s[i]) by {
            if i > 0 {
                assert(rest[i - 1] == s[i]);
            }
        }
    } else {
        assert(s.skip(0) =~= s);
    }
}

proof fn lemma_trim_end(s: Seq<char>)
    ensures
        exists|n: int|
            #![trigger s.take(n)]
            0 <= n <= s.len() && trim_end(s) == s.take(n) && (forall|i: int|
                n <= i < s.len() ==> whitespace(#[trigger] s[i])) && (n > 0 ==> !whitespace(
                s[n - 1],
            )),
    decreases s.len(),
{
    if s.len() > 0 && whitespace(s.last()) {
        let rest = s.drop_last();
        lemma_trim_end(rest);
        let n = choose|n: int|
            #![trigger rest.take(n)]
            0 <= n <= rest.len() && trim_end(rest) == rest.take(n) && (forall|i: int|
                n <= i < rest.len() ==> whitespace(#[trigger] rest[i])) && (n > 0 ==> !whitespace(
                rest[n - 1],
            ));
        assert(s.take(n) =~= rest.take(n));
        assert forall|i: int| n <= i < s.len() implies whitespace(#[trigger] s[i]) by {
            if i < rest.len() {
                assert(rest[i] == s[i]);
            }
        }
    } else {
        assert(s.take(s.len() as int) =~= s);
    }
}

/// A text that is trimmed loses white space at its two ends and nothing else, and all of it.
pub proof fn law_trimmed_texts(s: Seq<char>)
    ensures
        exists|a: int, b: int|
            #![trigger s.subrange(a, b)]
            0 <= a <= b <= s.len() && trim(s) == s.subrange(a, b) && (forall|i: int|
                0 <= i < a || b <= i < s.len() ==> whitespace(#[trigger] s[i])) && (a < b
                ==> !whitespace(s[a]) && !whitespace(s[b - 1])),
{
    lemma_trim_start(s);
    let a = choose|n: int|
        #![trigger s.skip(n)]
        0 <= n <= s.len() && trim_start(s) == s.skip(n) && (forall|i: int|
            0 <= i < n ==> whitespace(#[trigger] s[i])) && (n < s.len() ==> !whitespace(s[n]));
    let rest = s.skip(a);
    lemma_trim_end(rest);
    let n = choose|n: int|
        #![trigger rest.take(n)]
        0 <= n <= rest.len() && trim_end(rest) == rest.take(n) && (forall|i: int|
            n <= i < rest.len() ==> whitespace(#[trigger] rest[i])) && (n > 0 ==> !whitespace(
            rest[n - 1],
        ));
    assert(s.subrange(a, a + n) =~= rest.take(n));
    assert forall|i: int| 0 <= i < a || a + n <= i < s.len() implies whitespace(
        #[trigger] s[i],
    ) by {
        if i >= a {
            assert(rest[i - a] == s[i]);
        }
    }
    if n > 0 {
        assert(rest[0] == s[a] && rest[n - 1] == s[a + n - 1]);
    }
}

/// The parts of a text, with the separator between them, are the text again, and none of them
/// holds the separator.
pub proof fn law_parts_join_again(s: Seq<char>, separator: char)
    ensures
        join(split_on(s, separator), seq![separator]) == s,
        forall|k: int|
            0 <= k < split_on(s, separator).len() ==> !(#[trigger] split_on(
                s,
                separator,
            )[k]).contains(separator),
    decreases s.len(),
{
    let parts = split_on(s, separator);
    lemma_split_on_some(s, separator);
    if s.len() == 0 {
        assert(join(parts, seq![separator]) =~= s);
    } else {
        let front = s.drop_last();
        let before = split_on(front, separator);
        law_parts_join_again(front, separator);
        lemma_split_on_some(front, separator);
        assert forall|k: int| 0 <= k < parts.len() implies !(#[trigger] parts[k]).contains(
            separator,
        ) by {
            if k < before.len() {
                assert(!before[k].contains(separator));
            }
            if s.last() != separator && k == before.len() - 1 {
                assert(parts[k] == before[k].push(s.last()));
                if parts[k].contains(separator) {
                    let i = choose|i: int| 0 <= i < parts[k].len() && parts[k][i] == separator;
                    assert(before[k][i] == separator);
                }
            }
        }
        if s.last() == separator {
            assert(parts.drop_last() =~= before);
            assert(join(parts, seq![separator]) =~= front + seq![separator] + Seq::<char>::empty());
            assert(join(parts, seq![separator]) =~= s);
        } else {
            assert(parts.drop_last() =~= before.drop_last());
            if before.len() == 1 {
                assert(join(parts, seq![separator]) =~= front.push(s.last()));
            } else {
                let head = join(before.drop_last(), seq![separator]) + seq![separator];
                assert(front =~= head + before.last());
                assert(join(parts, seq![separator]) =~= head + before.last().push(s.last()));
            }
            assert(front.push(s.last()) =~= s);
            assert(join(parts, seq![separator]) =~= s);
        }
    }
}

proof fn lemma_split_one(part: Seq<char>, separator: char)
    requires
        forall|i: int| 0 <= i < part.len() ==> #[trigger] part[i] != separator,
    ensures
        split_on(part, separator) == seq![part],
    decreases part.len(),
{
    if part.len() == 0 {
        assert(part =~= Seq::<char>::empty());
    } else {
        let front = part.drop_last();
        assert forall|i: int| 0 <= i < front.len() implies #[trigger] front[i] != separator by {
            assert(front[i] == part[i]);
        }
        lemma_split_one(front, separator);
        assert(part[part.len() - 1] != separator);
        assert(front.push(part.last()) =~= part);
        assert(split_on(part, separator) =~= seq![part]);
    }
}

proof fn lemma_split_add(s: Seq<char>, part: Seq<char>, separator: char)
    requires
        forall|i: int| 0 <= i < part.len() ==> #[trigger] part[i] != separator,
    ensures
        split_on(s + seq![separator] + part, separator) == split_on(s, separator).push(part),
    decreases part.len(),
{
    let all = s + seq![separator] + part;
    if part.len() == 0 {
        assert(all.drop_last() =~= s);
        assert(all.last() == separator);
        assert(Seq::<char>::empty() =~= part);
    } else {
        let front = part.drop_last();
        assert forall|i: int| 0 <= i < front.len() implies #[trigger] front[i] != separator by {
            assert(front[i] == part[i]);
        }
        lemma_split_add(s, front, separator);
        assert(all.drop_last() =~= s + seq![separator] + front);
        assert(all.last() == part.last());
        assert(part[part.len() - 1] != separator);
        assert(front.push(part.last()) =~= part);
        assert(split_on(s, separator).push(front).drop_last() =~= split_on(s, separator));
    }
}

/// Parts without the separator, joined by it, are read back as these parts.
pub proof fn law_joined_parts_are_the_parts(parts: Seq<Seq<char>>, separator: char)
    requires
        parts.len() > 0,
        forall|k: int, i: int|
            0 <= k < parts.len() && 0 <= i < parts[k].len() ==> #[trigger] parts[k][i]
                != separator,
    ensures
        split_on(join(parts, seq![separator]), separator) == parts,
    decreases parts.len(),
{
    let last = parts[parts.len() - 1];
    assert forall|i: int| 0 <= i < last.len() implies #[trigger] last[i] != separator by {
        assert(parts[parts.len() - 1][i] != separator);
    }
    if parts.len() == 1 {
        lemma_split_one(last, separator);
        assert(seq![last] =~= parts);
    } else {
        let front = parts.drop_last();
        assert forall|k: int, i: int|
            0 <= k < front.len() && 0 <= i < front[k].len() implies #[trigger] front[k][i]
            != separator by {
            assert(front[k][i] == parts[k][i]);
        }
        law_joined_parts_are_the_parts(front, separator);
        lemma_split_add(join(front, seq![separator]), last, separator);
        assert(front.push(last) =~= parts);
    }
}

} // verus!
