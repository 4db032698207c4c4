//! Character-level helpers: white space, tokens, decimal numbers, substrings.

use vstd::prelude::*;

verus! {

/// Whether `c` has the Unicode property `White_Space`.
pub open spec fn is_space(c: char) -> bool {
    let n = c as u32;
    (0x09 <= n <= 0x0D) || n == 0x20 || n == 0x85 || n == 0xA0 || n == 0x1680 || (0x2000 <= n
        <= 0x200A) || n == 0x2028 || n == 0x2029 || n == 0x202F || n == 0x205F || n == 0x3000
}

/// Whether `c` is one of the ten ASCII digits.
pub open spec fn is_digit(c: char) -> bool {
    '0' <= c <= '9'
}

/// The first position at or after `i` that holds no white space, or the length.
pub open spec fn skip_spaces(s: Seq<char>, i: int) -> int
    decreases s.len() - i,
{
    if 0 <= i < s.len() && is_space(s[i]) {
        skip_spaces(s, i + 1)
    } else {
        i
    }
}

/// The first position at or after `i` that holds white space, or the length.
pub open spec fn skip_word(s: Seq<char>, i: int) -> int
    decreases s.len() - i,
{
    if 0 <= i < s.len() && !is_space(s[i]) {
        skip_word(s, i + 1)
    } else {
        i
    }
}

/// The maximal runs of non-space characters of `s` that start at or after `i`, in order.
pub open spec fn words_from(s: Seq<char>, i: int) -> Seq<Seq<char>>
    decreases s.len() - i,
{
    let a = skip_spaces(s, i);
    let b = skip_word(s, a);
    if 0 <= i <= a && a < b <= s.len() {
        seq![s.subrange(a, b)] + words_from(s, b)
    } else {
        Seq::empty()
    }
}

/// The white-space-separated words of `s`.
pub open spec fn words(s: Seq<char>) -> Seq<Seq<char>> {
    words_from(s, 0)
}

/// The views of a vector of character vectors.
pub open spec fn views(v: Seq<Vec<char>>) -> Seq<Seq<char>> {
    v.map_values(|w: Vec<char>| w@)
}

/// The number that a run of digits denotes, read in base ten.
pub open spec fn digits_value(s: Seq<char>) -> nat
    decreases s.len(),
{
    if s.len() == 0 {
        0
    } else {
        digits_value(s.drop_last()) * 10 + (s.last() as u32 - '0' as u32) as nat
    }
}

/// Whether `s` is one digit or more and nothing else.
pub open spec fn is_number(s: Seq<char>) -> bool {
    s.len() > 0 && forall|i: int| 0 <= i < s.len() ==> is_digit(#[trigger] s[i])
}

/// What remains of `s` after one leading `+`, if it has one.
pub open spec fn after_plus(s: Seq<char>) -> Seq<char> {
    if s.len() > 0 && s[0] == '+' {
        s.subrange(1, s.len() as int)
    } else {
        s
    }
}

/// The value of `s` as an unsigned decimal number no greater than `limit`:
/// an optional `+`, then digits.
pub open spec fn unsigned_value(s: Seq<char>, limit: nat) -> Option<nat> {
    let body = after_plus(s);
    if is_number(body) && digits_value(body) <= limit {
        Some(digits_value(body))
    } else {
        None
    }
}

/// The value of `s` as a signed decimal number in the 16-bit range:
/// an optional `+` or `-`, then digits.
pub open spec fn signed_value(s: Seq<char>) -> Option<int> {
    if s.len() > 0 && s[0] == '-' {
        let body = s.subrange(1, s.len() as int);
        if is_number(body) && digits_value(body) <= 32768 {
            Some(-(digits_value(body) as int))
        } else {
            None
        }
    } else {
        match unsigned_value(s, 32767) {
            Some(v) => Some(v as int),
            None => None,
        }
    }
}

/// `s` without its leading and trailing white space.
pub open spec fn trimmed(s: Seq<char>) -> Seq<char> {
    let a = skip_spaces(s, 0);
    let b = trim_end(s, a);
    s.subrange(a, b)
}

/// The end of `s` once trailing white space is dropped, never before `a`.
pub open spec fn trim_end(s: Seq<char>, a: int) -> int
    decreases s.len(),
{
    if 0 <= a < s.len() && is_space(s.last()) {
        trim_end(s.drop_last(), a)
    } else if a <= s.len() {
        s.len() as int
    } else {
        a
    }
}

/// Skipping white space ends inside the text, on a character that is none.
pub proof fn lemma_skip_spaces(s: Seq<char>, i: int)
    requires
        0 <= i <= s.len(),
    ensures
        i <= skip_spaces(s, i) <= s.len(),
        skip_spaces(s, i) < s.len() ==> !is_space(s[skip_spaces(s, i)]),
        forall|j: int| i <= j < skip_spaces(s, i) ==> is_space(#[trigger] s[j]),
    decreases s.len() - i,
{
    if i < s.len() && is_space(s[i]) {
        lemma_skip_spaces(s, i + 1);
    }
}

/// Skipping a word ends inside the text, on white space or at the end.
pub proof fn lemma_skip_word(s: Seq<char>, i: int)
    requires
        0 <= i <= s.len(),
    ensures
        i <= skip_word(s, i) <= s.len(),
        skip_word(s, i) < s.len() ==> is_space(s[skip_word(s, i)]),
        forall|j: int| i <= j < skip_word(s, i) ==> !is_space(#[trigger] s[j]),
    decreases s.len() - i,
{
    if i < s.len() && !is_space(s[i]) {
        lemma_skip_word(s, i + 1);
    }
}

/// Every word is at least one character long and holds no white space.
pub proof fn lemma_words_are_solid(s: Seq<char>, i: int)
    requires
        0 <= i <= s.len(),
    ensures
        forall|k: int, j: int|
            0 <= k < words_from(s, i).len() && 0 <= j < words_from(s, i)[k].len() ==> !is_space(
                #[trigger] words_from(s, i)[k][j],
            ),
        forall|k: int| 0 <= k < words_from(s, i).len() ==> (#[trigger] words_from(s, i)[k]).len() > 0,
    decreases s.len() - i,
{
    lemma_skip_spaces(s, i);
    let a = skip_spaces(s, i);
    lemma_skip_word(s, a);
    let b = skip_word(s, a);
    if a < b {
        lemma_words_are_solid(s, b);
        let first = s.subrange(a, b);
        let rest = words_from(s, b);
        assert(words_from(s, i) == seq![first] + rest);
        assert forall|k: int, j: int|
            0 <= k < words_from(s, i).len() && 0 <= j < words_from(s, i)[k].len() implies !is_space(
            #[trigger] words_from(s, i)[k][j],
        ) by {
            if k == 0 {
                assert(first[j] == s[a + j]);
            } else {
                assert(words_from(s, i)[k] == rest[k - 1]);
            }
        }
        assert forall|k: int| 0 <= k < words_from(s, i).len() implies (#[trigger] words_from(
            s,
            i,
        )[k]).len() > 0 by {
            if k > 0 {
                assert(words_from(s, i)[k] == rest[k - 1]);
            }
        }
    }
}

/// A text of white space alone has no words.
pub proof fn lemma_blank_has_no_words(s: Seq<char>)
    requires
        forall|j: int| 0 <= j < s.len() ==> is_space(#[trigger] s[j]),
    ensures
        words(s).len() == 0,
{
    lemma_skip_spaces(s, 0);
}

/// Dropping trailing white space ends at or after `a`, on a character
/// that is none, and drops white space only.
pub proof fn lemma_trim_end(s: Seq<char>, a: int)
    requires
        0 <= a <= s.len(),
    ensures
        a <= trim_end(s, a) <= s.len(),
        trim_end(s, a) > a ==> !is_space(s[trim_end(s, a) - 1]),
        forall|j: int| trim_end(s, a) <= j < s.len() ==> is_space(#[trigger] s[j]),
    decreases s.len(),
{
    if a < s.len() && is_space(s.last()) {
        lemma_trim_end(s.drop_last(), a);
        let b = trim_end(s.drop_last(), a);
        assert forall|j: int| b <= j < s.len() implies is_space(#[trigger] s[j]) by {
            if j < s.len() - 1 {
                assert(s.drop_last()[j] == s[j]);
            }
        }
        if b > a {
            assert(s.drop_last()[b - 1] == s[b - 1]);
        }
    }
}

/// A trimmed text neither starts nor ends with white space, and the text
/// it was cut from is white space, then the trimmed text, then white space.
pub proof fn lemma_trimmed_is_bare(s: Seq<char>)
    ensures
        trimmed(s).len() > 0 ==> !is_space(trimmed(s).first()) && !is_space(trimmed(s).last()),
        exists|a: int, b: int|
            0 <= a <= b <= s.len() && trimmed(s) == s.subrange(a, b) && (forall|j: int|
                0 <= j < a ==> is_space(#[trigger] s[j])) && (forall|j: int|
                b <= j < s.len() ==> is_space(#[trigger] s[j])),
{
    lemma_skip_spaces(s, 0);
    let a = skip_spaces(s, 0);
    lemma_trim_end(s, a);
    let b = trim_end(s, a);
    assert(0 <= a <= b <= s.len() && trimmed(s) == s.subrange(a, b) && (forall|j: int|
        0 <= j < a ==> is_space(#[trigger] s[j])) && (forall|j: int|
        b <= j < s.len() ==> is_space(#[trigger] s[j])));
}

/// A longer run of digits denotes no smaller a number than its prefix.
pub proof fn lemma_digits_prefix(s: Seq<char>, k: int)
    requires
        0 <= k <= s.len(),
    ensures
        digits_value(s.subrange(0, k)) <= digits_value(s),
    decreases s.len(),
{
    if k == s.len() {
        assert(s.subrange(0, k) =~= s);
    } else {
        assert(s.drop_last().subrange(0, k) =~= s.subrange(0, k));
        lemma_digits_prefix(s.drop_last(), k);
    }
}

/// Tells white space from other characters.
pub fn char_is_space(c: char) -> (r: bool)
    ensures
        r == is_space(c),
{
    let n: u32 = c as u32;
    (0x09 <= n && n <= 0x0D) || n == 0x20 || n == 0x85 || n == 0xA0 || n == 0x1680 || (0x2000 <= n
        && n <= 0x200A) || n == 0x2028 || n == 0x2029 || n == 0x202F || n == 0x205F || n == 0x3000
}

/// The characters of `s`, one by one.
pub fn chars_of(s: &str) -> (r: Vec<char>)
    ensures
        r@ == s@,
{
    let n: usize = s.unicode_len();
    let mut r: Vec<char> = Vec::new();
    let mut i: usize = 0;
    while i < n
        invariant
            n == s@.len(),
            i <= n,
            r@ == s@.subrange(0, i as int),
        decreases n - i,
    {
        let c = s.get_char(i);
        r.push(c);
        i = i + 1;
        assert(r@ =~= s@.subrange(0, i as int));
    }
    assert(r@ =~= s@);
    r
}

/// A copy of the characters of `s` from `from` up to `to`.
pub fn copy_range(s: &Vec<char>, from: usize, to: usize) -> (r: Vec<char>)
    requires
        from <= to <= s.len(),
    ensures
        r@ == s@.subrange(from as int, to as int),
{
    let mut r: Vec<char> = Vec::new();
    let mut i: usize = from;
    while i < to
        invariant
            from <= i <= to <= s.len(),
            r@ == s@.subrange(from as int, i as int),
        decreases to - i,
    {
        r.push(s[i]);
        i = i + 1;
        assert(r@ =~= s@.subrange(from as int, i as int));
    }
    r
}

/// The position of the first character at or after `i` that is no white space.
pub fn find_word_start(s: &Vec<char>, i: usize) -> (a: usize)
    requires
        i <= s.len(),
    ensures
        a == skip_spaces(s@, i as int),
        i <= a <= s.len(),
{
    let mut a: usize = i;
    while a < s.len() && char_is_space(s[a])
        invariant
            i <= a <= s.len(),
            skip_spaces(s@, a as int) == skip_spaces(s@, i as int),
        decreases s.len() - a,
    {
        a = a + 1;
    }
    a
}

/// The position of the first white space at or after `i`.
pub fn find_word_end(s: &Vec<char>, i: usize) -> (b: usize)
    requires
        i <= s.len(),
    ensures
        b == skip_word(s@, i as int),
        i <= b <= s.len(),
{
    let mut b: usize = i;
    while b < s.len() && !char_is_space(s[b])
        invariant
            i <= b <= s.len(),
            skip_word(s@, b as int) == skip_word(s@, i as int),
        decreases s.len() - b,
    {
        b = b + 1;
    }
    b
}

/// Splits `s` at white space into its words.
pub fn split_words(s: &Vec<char>) -> (r: Vec<Vec<char>>)
    ensures
        views(r@) == words(s@),
{
    let mut r: Vec<Vec<char>> = Vec::new();
    let mut i: usize = 0;
    loop
        invariant
            i <= s.len(),
            words(s@) == views(r@) + words_from(s@, i as int),
        decreases s.len() - i,
    {
        let a = find_word_start(s, i);
        let b = find_word_end(s, a);
        if a >= b {
            assert(words_from(s@, i as int) =~= Seq::empty());
            assert(views(r@) + Seq::<Seq<char>>::empty() =~= views(r@));
            return r;
        }
        let w = copy_range(s, a, b);
        let ghost before = views(r@);
        r.push(w);
        assert(views(r@) =~= before + seq![s@.subrange(a as int, b as int)]);
        assert(before + (seq![s@.subrange(a as int, b as int)] + words_from(s@, b as int))
            =~= views(r@) + words_from(s@, b as int));
        i = b;
    }
}

/// Reads the digits of `s` from `from` to the end as a number no greater than `limit`.
pub fn parse_digits(s: &Vec<char>, from: usize, limit: u64) -> (r: Option<u64>)
    requires
        from <= s.len(),
        limit <= 0xFFFF_FFFF,
    ensures
        r == (if is_number(s@.subrange(from as int, s.len() as int)) && digits_value(
            s@.subrange(from as int, s.len() as int),
        ) <= limit {
            Some(digits_value(s@.subrange(from as int, s.len() as int)) as u64)
        } else {
            None
        }),
{
    let ghost body = s@.subrange(from as int, s.len() as int);
    if from == s.len() {
        return None;
    }
    let mut acc: u64 = 0;
    let mut i: usize = from;
    while i < s.len()
        invariant
            from <= i <= s.len(),
            body == s@.subrange(from as int, s.len() as int),
            limit <= 0xFFFF_FFFF,
            acc <= limit,
            acc == digits_value(body.subrange(0, i - from)),
            forall|j: int| 0 <= j < i - from ==> is_digit(#[trigger] body[j]),
        decreases s.len() - i,
    {
        let c = s[i];
        if !('0' <= c && c <= '9') {
            assert(!is_digit(body[i - from]));
            return None;
        }
        let d: u64 = (c as u32 - '0' as u32) as u64;
        let next: u64 = acc * 10 + d;
        proof {
            let p = body.subrange(0, i - from + 1);
            assert(p.drop_last() =~= body.subrange(0, i - from));
            assert(p.last() == c);
            assert(digits_value(p) == next);
            lemma_digits_prefix(body, i - from + 1);
        }
        if next > limit {
            return None;
        }
        acc = next;
        i = i + 1;
    }
    assert(body.subrange(0, i - from) =~= body);
    Some(acc)
}

/// Reads `s` as an unsigned decimal number no greater than `limit`.
pub fn parse_unsigned(s: &Vec<char>, limit: u64) -> (r: Option<u64>)
    requires
        limit <= 0xFFFF_FFFF,
    ensures
        r is Some <==> unsigned_value(s@, limit as nat) is Some,
        r is Some ==> r->0 == unsigned_value(s@, limit as nat)->0,
{
    if s.len() > 0 && s[0] == '+' {
        parse_digits(s, 1, limit)
    } else {
        assert(s@.subrange(0, s.len() as int) =~= s@);
        parse_digits(s, 0, limit)
    }
}

/// Reads `s` as a signed decimal number of 16 bits.
pub fn parse_i16(s: &Vec<char>) -> (r: Option<i16>)
    ensures
        r is Some <==> signed_value(s@) is Some,
        r is Some ==> r->0 == signed_value(s@)->0,
{
    if s.len() > 0 && s[0] == '-' {
        match parse_digits(s, 1, 32768) {
            Some(v) => {
                let w: i64 = -(v as i64);
                Some(w as i16)
            },
            None => None,
        }
    } else {
        match parse_unsigned(s, 32767) {
            Some(v) => Some(v as i16),
            None => None,
        }
    }
}

/// Reads `s` as an unsigned decimal number of 16 bits.
pub fn parse_u16(s: &Vec<char>) -> (r: Option<u16>)
    ensures
        r is Some <==> unsigned_value(s@, 65535) is Some,
        r is Some ==> r->0 == unsigned_value(s@, 65535)->0,
{
    match parse_unsigned(s, 65535) {
        Some(v) => Some(v as u16),
        None => None,
    }
}

/// Drops the white space at both ends of `s`.
pub fn trim(s: &Vec<char>) -> (r: Vec<char>)
    ensures
        r@ == trimmed(s@),
{
    let a = find_word_start(s, 0);
    let mut b: usize = s.len();
    assert(s@.subrange(0, b as int) =~= s@);
    while b > a && char_is_space(s[b - 1])
        invariant
            a <= b <= s.len(),
            trim_end(s@, a as int) == trim_end(s@.subrange(0, b as int), a as int),
        decreases b,
    {
        assert(s@.subrange(0, b as int).drop_last() =~= s@.subrange(0, b - 1));
        b = b - 1;
    }
    copy_range(s, a, b)
}

/// The lower-case form of an ASCII capital; any other character as it is.
pub open spec fn lower(c: char) -> char {
    if 'A' <= c <= 'Z' {
        ((c as u8) + 32) as u8 as char
    } else {
        c
    }
}

/// `s` with each ASCII capital in lower case.
pub open spec fn lowered(s: Seq<char>) -> Seq<char> {
    s.map_values(|c: char| lower(c))
}

/// The character that stands for a digit `d` below ten.
pub open spec fn digit_char(d: nat) -> char {
    (48 + d) as u8 as char
}

/// `n` written in base ten, without leading zeros.
pub open spec fn decimal(n: nat) -> Seq<char>
    decreases n,
{
    if n < 10 {
        seq![digit_char(n)]
    } else {
        decimal(n / 10).push(digit_char(n % 10))
    }
}

/// Whether `needle` stands in `hay` at position `i`.
pub open spec fn occurs_at(hay: Seq<char>, needle: Seq<char>, i: int) -> bool {
    0 <= i && i + needle.len() <= hay.len() && hay.subrange(i, i + needle.len()) == needle
}

/// Whether `needle` stands somewhere in `hay`.
pub open spec fn contains_text(hay: Seq<char>, needle: Seq<char>) -> bool {
    exists|i: int| occurs_at(hay, needle, i)
}

/// The empty text stands in every text.
pub proof fn lemma_contains_empty(hay: Seq<char>)
    ensures
        contains_text(hay, Seq::empty()),
{
    assert(hay.subrange(0, 0) =~= Seq::<char>::empty());
    assert(occurs_at(hay, Seq::empty(), 0));
}

/// Puts one character in lower case, if it is an ASCII capital.
pub fn to_lower(c: char) -> (r: char)
    ensures
        r == lower(c),
{
    if 'A' <= c && c <= 'Z' {
        ((c as u8) + 32) as char
    } else {
        c
    }
}

/// Puts the ASCII capitals of `s` in lower case.
pub fn lowercase(s: &Vec<char>) -> (r: Vec<char>)
    ensures
        r@ == lowered(s@),
{
    let mut r: Vec<char> = Vec::new();
    let mut i: usize = 0;
    while i < s.len()
        invariant
            i <= s.len(),
            r@ == lowered(s@.subrange(0, i as int)),
        decreases s.len() - i,
    {
        r.push(to_lower(s[i]));
        i = i + 1;
        assert(r@ =~= lowered(s@.subrange(0, i as int)));
    }
    assert(s@.subrange(0, i as int) =~= s@);
    r
}

/// Writes `n` in base ten.
pub fn decimal_digits(n: u64) -> (r: Vec<char>)
    ensures
        r@ == decimal(n as nat),
    decreases n,
{
    let d: u8 = (n % 10) as u8;
    let c: char = (48u8 + d) as char;
    if n < 10 {
        let mut r: Vec<char> = Vec::new();
        r.push(c);
        assert(r@ =~= seq![digit_char(n as nat)]);
        r
    } else {
        let mut r = decimal_digits(n / 10);
        r.push(c);
        r
    }
}

/// Whether `needle` stands in `hay` at position `i`.
pub fn matches_at(hay: &Vec<char>, needle: &Vec<char>, i: usize) -> (r: bool)
    requires
        i + needle.len() <= hay.len(),
    ensures
        r == occurs_at(hay@, needle@, i as int),
{
    let mut k: usize = 0;
    while k < needle.len()
        invariant
            k <= needle.len(),
            i + needle.len() <= hay.len(),
            forall|j: int| 0 <= j < k ==> hay@[i + j] == needle@[j],
        decreases needle.len() - k,
    {
        if hay[i + k] != needle[k] {
            assert(hay@.subrange(i as int, i + needle.len())[k as int] == hay@[i + k]);
            return false;
        }
        k = k + 1;
    }
    assert(hay@.subrange(i as int, i + needle.len()) =~= needle@);
    true
}

/// Whether `needle` stands somewhere in `hay`.
pub fn contains(hay: &Vec<char>, needle: &Vec<char>) -> (r: bool)
    ensures
        r == contains_text(hay@, needle@),
{
    if needle.len() > hay.len() {
        return false;
    }
    let last: usize = hay.len() - needle.len();
    let mut i: usize = 0;
    loop
        invariant
            i <= last,
            last == hay.len() - needle.len(),
            forall|k: int| 0 <= k < i ==> !occurs_at(hay@, needle@, k),
        decreases last - i,
    {
        if matches_at(hay, needle, i) {
            return true;
        }
        if i == last {
            return false;
        }
        i = i + 1;
    }
}

/// Appends one character to a string: `String::push` of the standard
/// library, which puts the character at the end and changes nothing else.
#[verifier::external_body]
pub(crate) fn push_char(s: &mut String, c: char)
    ensures
        final(s)@ == old(s)@.push(c),
{
    s.push(c)
}

/// Removes the last character of a string: `String::pop` of the standard
/// library, which returns `None` and changes nothing on the empty string,
/// and else takes off the last character and returns it.
#[verifier::external_body]
pub(crate) fn pop_char(s: &mut String) -> (r: Option<char>)
    ensures
        old(s)@.len() == 0 ==> r is None && final(s)@ == old(s)@,
        old(s)@.len() > 0 ==> r == Some(old(s)@.last()) && final(s)@ == old(s)@.drop_last(),
{
    s.pop()
}

/// The string that holds the characters of `chars`.
pub fn string_of(chars: &Vec<char>) -> (r: String)
    ensures
        r@ == chars@,
{
    let mut r = String::new();
    let mut i: usize = 0;
    while i < chars.len()
        invariant
            i <= chars.len(),
            r@ == chars@.subrange(0, i as int),
        decreases chars.len() - i,
    {
        push_char(&mut r, chars[i]);
        i = i + 1;
        assert(r@ =~= chars@.subrange(0, i as int));
    }
    assert(chars@.subrange(0, i as int) =~= chars@);
    r
}

} // verus!
