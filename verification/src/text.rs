//! Text as sequences of characters: the comparisons, trims, searches and
//! number formats that the rest of the crate is written with.

use vstd::prelude::*;

verus! {

/// `String::push` appends the character at the end of the string.
pub assume_specification[ String::push ](s: &mut String, c: char)
    ensures
        final(s)@ == old(s)@.push(c),
;

/// The characters of `text`, in order.
pub fn chars_of(text: &str) -> (chars: Vec<char>)
    ensures
        chars@ == text@,
{
    let mut chars: Vec<char> = Vec::new();
    for c in it: text.chars()
        invariant
            it.seq() == text@,
            chars@ == it.seq().take(it.index()),
    {
        chars.push(c);
    }
    chars
}

/// The string made of `chars[from..to]`.
pub fn text_between(chars: &Vec<char>, from: usize, to: usize) -> (text: String)
    requires
        from <= to <= chars@.len(),
    ensures
        text@ == chars@.subrange(from as int, to as int),
{
    let mut text: String = String::new();
    for i in from..to
        invariant
            from <= i <= to <= chars@.len(),
            text@ == chars@.subrange(from as int, i as int),
    {
        text.push(chars[i]);
        assert(chars@.subrange(from as int, i + 1) =~= chars@.subrange(from as int, i as int).push(
            chars@[i as int],
        ));
    }
    text
}

/// Whether the two texts hold the same characters.
pub fn same_text(a: &str, b: &str) -> (same: bool)
    ensures
        same == (a@ == b@),
{
    let left: Vec<char> = chars_of(a);
    let right: Vec<char> = chars_of(b);
    if left.len() != right.len() {
        return false;
    }
    for i in 0..left.len()
        invariant
            left@ == a@,
            right@ == b@,
            left@.len() == right@.len(),
            forall|j: int| 0 <= j < i ==> left@[j] == right@[j],
    {
        if left[i] != right[i] {
            return false;
        }
    }
    assert(left@ =~= right@);
    true
}

/// Whether `text` begins with `prefix`.
pub open spec fn starts_with(text: Seq<char>, prefix: Seq<char>) -> bool {
    prefix.len() <= text.len() && text.take(prefix.len() as int) == prefix
}

/// Executable [`starts_with`].
pub fn begins_with(text: &str, prefix: &str) -> (begins: bool)
    ensures
        begins == starts_with(text@, prefix@),
{
    let chars: Vec<char> = chars_of(text);
    let wanted: Vec<char> = chars_of(prefix);
    if chars.len() < wanted.len() {
        return false;
    }
    for i in 0..wanted.len()
        invariant
            chars@ == text@,
            wanted@ == prefix@,
            wanted@.len() <= chars@.len(),
            forall|j: int| 0 <= j < i ==> chars@[j] == wanted@[j],
    {
        if chars[i] != wanted[i] {
            proof {
                assert(chars@.take(wanted@.len() as int)[i as int] == chars@[i as int]);
            }
            return false;
        }
    }
    assert(chars@.take(wanted@.len() as int) =~= wanted@);
    true
}

// ---------------------------------------------------------------------------
// ASCII case

/// `c` with the letters `A` to `Z` in lower case, anything else as it is.
pub open spec fn lower_char(c: char) -> char {
    if 'A' <= c <= 'Z' {
        (c as u8 + 32) as char
    } else {
        c
    }
}

/// Executable [`lower_char`].
pub fn ascii_lower(c: char) -> (lower: char)
    ensures
        lower == lower_char(c),
{
    if 'A' <= c && c <= 'Z' {
        (c as u8 + 32) as char
    } else {
        c
    }
}

/// Whether `a` and `b` differ at most in the case of ASCII letters.
pub open spec fn same_ignoring_case(a: Seq<char>, b: Seq<char>) -> bool {
    &&& a.len() == b.len()
    &&& forall|i: int| 0 <= i < a.len() ==> lower_char(#[trigger] a[i]) == lower_char(b[i])
}

/// Whether `pattern` stands in `text` from position `at` on, up to the case of
/// ASCII letters.
pub open spec fn occurs_at(text: Seq<char>, pattern: Seq<char>, at: int) -> bool {
    &&& 0 <= at
    &&& at + pattern.len() <= text.len()
    &&& same_ignoring_case(text.subrange(at, at + pattern.len()), pattern)
}

/// Whether `pattern` stands anywhere in `text`, up to the case of ASCII letters.
pub open spec fn occurs_in(text: Seq<char>, pattern: Seq<char>) -> bool {
    exists|at: int| occurs_at(text, pattern, at)
}

/// Whether `text` begins with `prefix`, up to the case of ASCII letters.
pub open spec fn starts_ignoring_case(text: Seq<char>, prefix: Seq<char>) -> bool {
    occurs_at(text, prefix, 0)
}

/// Executable [`occurs_at`] for a position inside the text.
pub fn find_at(text: &Vec<char>, pattern: &Vec<char>, at: usize) -> (found: bool)
    requires
        at <= text@.len(),
    ensures
        found == occurs_at(text@, pattern@, at as int),
{
    if pattern.len() > text.len() - at {
        return false;
    }
    let ghost window = text@.subrange(at as int, at + pattern@.len());
    for i in 0..pattern.len()
        invariant
            at + pattern.len() <= text.len(),
            window == text@.subrange(at as int, at + pattern@.len()),
            forall|j: int| 0 <= j < i ==> lower_char(#[trigger] window[j]) == lower_char(pattern@[j]),
    {
        if ascii_lower(text[at + i]) != ascii_lower(pattern[i]) {
            assert(lower_char(window[i as int]) != lower_char(pattern@[i as int]));
            return false;
        }
    }
    true
}

/// Whether `a` and `b` are equal up to the case of ASCII letters.
pub fn equal_ignoring_case(a: &str, b: &str) -> (equal: bool)
    ensures
        equal == same_ignoring_case(a@, b@),
{
    let a: Vec<char> = chars_of(a);
    let b: Vec<char> = chars_of(b);
    assert(a@.subrange(0, a@.len() as int) =~= a@);
    a.len() == b.len() && find_at(&a, &b, 0)
}

/// Whether `text` begins with `prefix`, up to the case of ASCII letters.
pub fn begins_ignoring_case(text: &str, prefix: &str) -> (begins: bool)
    ensures
        begins == starts_ignoring_case(text@, prefix@),
{
    let text: Vec<char> = chars_of(text);
    let prefix: Vec<char> = chars_of(prefix);
    find_at(&text, &prefix, 0)
}

/// Every text equals itself, up to the case of ASCII letters.
pub proof fn lemma_same_ignoring_case_reflexive(a: Seq<char>)
    ensures
        same_ignoring_case(a, a),
{
}

// ---------------------------------------------------------------------------
// Slashes and white space

/// `text` without the slashes at its end.
pub open spec fn trim_end_slashes(text: Seq<char>) -> Seq<char>
    decreases text.len(),
{
    if text.len() > 0 && text.last() == '/' {
        trim_end_slashes(text.drop_last())
    } else {
        text
    }
}

/// `text` without the slashes at its start.
pub open spec fn trim_start_slashes(text: Seq<char>) -> Seq<char>
    decreases text.len(),
{
    if text.len() > 0 && text[0] == '/' {
        trim_start_slashes(text.skip(1))
    } else {
        text
    }
}

/// Executable [`trim_end_slashes`].
pub fn without_end_slashes(text: &str) -> (trimmed: String)
    ensures
        trimmed@ == trim_end_slashes(text@),
{
    let chars: Vec<char> = chars_of(text);
    let mut end: usize = chars.len();
    assert(chars@.take(end as int) =~= chars@);
    while end > 0 && chars[end - 1] == '/'
        invariant
            end <= chars@.len(),
            chars@ == text@,
            trim_end_slashes(chars@.take(end as int)) == trim_end_slashes(text@),
        decreases end,
    {
        assert(chars@.take(end as int).drop_last() =~= chars@.take(end - 1));
        end = end - 1;
    }
    text_between(&chars, 0, end)
}

/// Executable [`trim_start_slashes`].
pub fn without_start_slashes(text: &str) -> (trimmed: String)
    ensures
        trimmed@ == trim_start_slashes(text@),
{
    let chars: Vec<char> = chars_of(text);
    let mut start: usize = 0;
    assert(chars@.skip(0) =~= chars@);
    while start < chars.len() && chars[start] == '/'
        invariant
            start <= chars@.len(),
            chars@ == text@,
            trim_start_slashes(chars@.skip(start as int)) == trim_start_slashes(text@),
        decreases chars@.len() - start,
    {
        assert(chars@.skip(start as int).skip(1) =~= chars@.skip(start + 1));
        start = start + 1;
    }
    assert(chars@.subrange(start as int, chars@.len() as int) =~= chars@.skip(start as int));
    text_between(&chars, start, chars.len())
}

/// A trimmed text does not end in a slash, and is a prefix of what was trimmed.
pub proof fn lemma_trim_end_slashes(text: Seq<char>)
    ensures
        trim_end_slashes(text).len() <= text.len(),
        trim_end_slashes(text) == text.take(trim_end_slashes(text).len() as int),
        trim_end_slashes(text).len() > 0 ==> trim_end_slashes(text).last() != '/',
    decreases text.len(),
{
    if text.len() > 0 && text.last() == '/' {
        lemma_trim_end_slashes(text.drop_last());
        let kept: int = trim_end_slashes(text).len() as int;
        assert(text.drop_last().take(kept) =~= text.take(kept));
    } else {
        assert(text.take(text.len() as int) =~= text);
    }
}

/// Whether `c` has Unicode's `White_Space` property.
pub open spec fn is_white_space(c: char) -> bool {
    let n: int = c as int;
    ||| 0x09 <= n <= 0x0d
    ||| n == 0x20
    ||| n == 0x85
    ||| n == 0xa0
    ||| n == 0x1680
    ||| 0x2000 <= n <= 0x200a
    ||| n == 0x2028
    ||| n == 0x2029
    ||| n == 0x202f
    ||| n == 0x205f
    ||| n == 0x3000
}

/// Executable [`is_white_space`].
pub fn white_space(c: char) -> (is: bool)
    ensures
        is == is_white_space(c),
{
    let n: u32 = c as u32;
    (0x09 <= n && n <= 0x0d) || n == 0x20 || n == 0x85 || n == 0xa0 || n == 0x1680 || (0x2000 <= n
        && n <= 0x200a) || n == 0x2028 || n == 0x2029 || n == 0x202f || n == 0x205f || n == 0x3000
}

/// Whether `text` holds nothing but white space.
pub open spec fn is_blank(text: Seq<char>) -> bool {
    forall|i: int| 0 <= i < text.len() ==> is_white_space(#[trigger] text[i])
}

/// Executable [`is_blank`].
pub fn blank(text: &str) -> (is: bool)
    ensures
        is == is_blank(text@),
{
    let chars: Vec<char> = chars_of(text);
    for i in 0..chars.len()
        invariant
            chars@ == text@,
            forall|j: int| 0 <= j < i ==> is_white_space(#[trigger] text@[j]),
    {
        if !white_space(chars[i]) {
            return false;
        }
    }
    true
}

/// `text` without the white space at its end.
pub open spec fn trim_end_white(text: Seq<char>) -> Seq<char>
    decreases text.len(),
{
    if text.len() > 0 && is_white_space(text.last()) {
        trim_end_white(text.drop_last())
    } else {
        text
    }
}

/// `text` without the white space at its start.
pub open spec fn trim_start_white(text: Seq<char>) -> Seq<char>
    decreases text.len(),
{
    if text.len() > 0 && is_white_space(text[0]) {
        trim_start_white(text.skip(1))
    } else {
        text
    }
}

/// `text` without the white space around it.
pub open spec fn trim_white(text: Seq<char>) -> Seq<char> {
    trim_start_white(trim_end_white(text))
}

/// Executable [`trim_white`], on characters.
pub fn without_white(chars: &Vec<char>) -> (trimmed: Vec<char>)
    ensures
        trimmed@ == trim_white(chars@),
{
    let mut end: usize = chars.len();
    assert(chars@.take(end as int) =~= chars@);
    while end > 0 && white_space(chars[end - 1])
        invariant
            end <= chars@.len(),
            trim_end_white(chars@.take(end as int)) == trim_end_white(chars@),
        decreases end,
    {
        assert(chars@.take(end as int).drop_last() =~= chars@.take(end - 1));
        end = end - 1;
    }
    let ghost kept = chars@.take(end as int);
    let mut start: usize = 0;
    assert(kept.skip(0) =~= kept);
    while start < end && white_space(chars[start])
        invariant
            start <= end <= chars@.len(),
            kept == chars@.take(end as int),
            trim_start_white(kept.skip(start as int)) == trim_start_white(kept),
        decreases end - start,
    {
        assert(kept.skip(start as int).skip(1) =~= kept.skip(start + 1));
        start = start + 1;
    }
    let mut trimmed: Vec<char> = Vec::new();
    for i in start..end
        invariant
            start <= i <= end <= chars@.len(),
            trimmed@ == chars@.subrange(start as int, i as int),
    {
        trimmed.push(chars[i]);
        assert(chars@.subrange(start as int, i + 1) =~= chars@.subrange(
            start as int,
            i as int,
        ).push(chars@[i as int]));
    }
    assert(trimmed@ =~= kept.skip(start as int));
    trimmed
}

// ---------------------------------------------------------------------------
// Searches

/// Whether `at` is the first position of `c` in `text`.
pub open spec fn is_first_of(text: Seq<char>, c: char, at: int) -> bool {
    &&& 0 <= at < text.len()
    &&& text[at] == c
    &&& forall|j: int| 0 <= j < at ==> #[trigger] text[j] != c
}

/// Whether `at` is the last position of `c` in `text`.
pub open spec fn is_last_of(text: Seq<char>, c: char, at: int) -> bool {
    &&& 0 <= at < text.len()
    &&& text[at] == c
    &&& forall|j: int| at < j < text.len() ==> #[trigger] text[j] != c
}

/// The first position of `c` in `chars`, where there is one.
pub fn first_of(chars: &Vec<char>, c: char) -> (at: Option<usize>)
    ensures
        match at {
            Some(i) => is_first_of(chars@, c, i as int),
            None => !chars@.contains(c),
        },
{
    for i in 0..chars.len()
        invariant
            forall|j: int| 0 <= j < i ==> #[trigger] chars@[j] != c,
    {
        if chars[i] == c {
            return Some(i);
        }
    }
    None
}

/// The last position of `c` in `chars`, where there is one.
pub fn last_of(chars: &Vec<char>, c: char) -> (at: Option<usize>)
    ensures
        match at {
            Some(i) => is_last_of(chars@, c, i as int),
            None => !chars@.contains(c),
        },
{
    let mut i: usize = chars.len();
    while i > 0
        invariant
            i <= chars@.len(),
            forall|j: int| i <= j < chars@.len() ==> #[trigger] chars@[j] != c,
        decreases i,
    {
        i = i - 1;
        if chars[i] == c {
            return Some(i);
        }
    }
    None
}

// ---------------------------------------------------------------------------
// Numbers

/// The value of `c` as a digit; 36, which no radix admits, for anything else.
pub open spec fn digit(c: char) -> int {
    if '0' <= c <= '9' {
        c as int - 48
    } else if 'a' <= c <= 'z' {
        c as int - 87
    } else if 'A' <= c <= 'Z' {
        c as int - 55
    } else {
        36
    }
}

/// Executable [`digit`].
pub fn digit_of(c: char) -> (d: u32)
    ensures
        d == digit(c),
        d <= 36,
{
    let n: u32 = c as u32;
    if '0' <= c && c <= '9' {
        n - 48
    } else if 'a' <= c && c <= 'z' {
        n - 87
    } else if 'A' <= c && c <= 'Z' {
        n - 55
    } else {
        36
    }
}

/// Whether `digits` is one or more digits of the radix.
pub open spec fn is_numeral(digits: Seq<char>, radix: int) -> bool {
    &&& digits.len() > 0
    &&& forall|i: int| 0 <= i < digits.len() ==> digit(#[trigger] digits[i]) < radix
}

/// What `digits` stands for in the radix.
pub open spec fn numeral_value(digits: Seq<char>, radix: int) -> int
    decreases digits.len(),
{
    if digits.len() == 0 {
        0
    } else {
        numeral_value(digits.drop_last(), radix) * radix + digit(digits.last())
    }
}

/// `text` without one plus sign at its start.
pub open spec fn without_plus(text: Seq<char>) -> Seq<char> {
    if text.len() > 0 && text[0] == '+' {
        text.skip(1)
    } else {
        text
    }
}

/// The number that `text` writes in the radix, where it writes one that is no
/// larger than `max`: an optional plus sign, then digits.
pub open spec fn parsed_number(text: Seq<char>, radix: int, max: int) -> Option<int> {
    let digits = without_plus(text);
    if is_numeral(digits, radix) && numeral_value(digits, radix) <= max {
        Some(numeral_value(digits, radix))
    } else {
        None
    }
}

/// A numeral is worth at least as much as any of its prefixes.
proof fn lemma_numeral_grows(digits: Seq<char>, radix: int, upto: int)
    requires
        radix >= 1,
        0 <= upto <= digits.len(),
        forall|i: int| 0 <= i < digits.len() ==> digit(#[trigger] digits[i]) < radix,
    ensures
        0 <= numeral_value(digits.take(upto), radix) <= numeral_value(digits, radix),
    decreases digits.len(),
{
    if digits.len() > 0 {
        let shorter = digits.drop_last();
        if upto < digits.len() {
            lemma_numeral_grows(shorter, radix, upto);
            assert(shorter.take(upto) =~= digits.take(upto));
        } else {
            lemma_numeral_grows(shorter, radix, shorter.len() as int);
            assert(shorter.take(shorter.len() as int) =~= shorter);
            assert(digits.take(upto) =~= digits);
        }
        let v: int = numeral_value(shorter, radix);
        assert(v * radix >= v) by (nonlinear_arith)
            requires
                v >= 0,
                radix >= 1,
        ;
    }
}

/// Executable [`parsed_number`].
pub fn parse_number(chars: &Vec<char>, radix: u32, max: u32) -> (number: Option<u32>)
    requires
        1 <= radix <= 36,
    ensures
        match number {
            Some(n) => parsed_number(chars@, radix as int, max as int) == Some(n as int),
            None => parsed_number(chars@, radix as int, max as int) is None,
        },
{
    let from: usize = if chars.len() > 0 && chars[0] == '+' {
        1
    } else {
        0
    };
    let ghost digits = without_plus(chars@);
    assert(digits =~= chars@.skip(from as int));
    if from == chars.len() {
        return None;
    }
    let mut value: u64 = 0;
    assert(digits.take(0) =~= Seq::<char>::empty());
    for i in from..chars.len()
        invariant
            from <= i <= chars@.len(),
            from < chars@.len(),
            1 <= radix <= 36,
            digits == without_plus(chars@),
            digits == chars@.skip(from as int),
            value <= max,
            value == numeral_value(digits.take(i - from), radix as int),
            forall|j: int| 0 <= j < i - from ==> digit(#[trigger] digits[j]) < radix,
    {
        let d: u32 = digit_of(chars[i]);
        let ghost at: int = i - from;
        assert(digits[at] == chars@[i as int]);
        if d >= radix {
            return None;
        }
        assert(digits.take(at + 1).drop_last() =~= digits.take(at));
        assert(value * (radix as u64) <= 0xffff_ffff * 36) by (nonlinear_arith)
            requires
                value <= 0xffff_ffff,
                radix <= 36,
        ;
        let next: u64 = value * (radix as u64) + (d as u64);
        assert(next == numeral_value(digits.take(at + 1), radix as int));
        if next > max as u64 {
            proof {
                if is_numeral(digits, radix as int) {
                    lemma_numeral_grows(digits, radix as int, at + 1);
                }
            }
            return None;
        }
        value = next;
    }
    assert(digits.take(digits.len() as int) =~= digits);
    Some(value as u32)
}

/// The decimal digit for a value below ten.
pub open spec fn digit_char(d: int) -> char {
    (48 + d) as char
}

/// `n` in decimal digits, without leading zeros.
pub open spec fn decimal(n: int) -> Seq<char>
    decreases n,
{
    if n < 10 {
        seq![digit_char(n)]
    } else {
        decimal(n / 10).push(digit_char(n % 10))
    }
}

/// Executable [`decimal`].
pub fn decimal_text(n: u32) -> (text: String)
    ensures
        text@ == decimal(n as int),
    decreases n,
{
    let last: char = (48 + (n % 10) as u8) as char;
    if n < 10 {
        let mut text: String = String::new();
        text.push(last);
        assert(text@ =~= seq![digit_char(n as int)]);
        text
    } else {
        let mut text: String = decimal_text(n / 10);
        text.push(last);
        text
    }
}

/// Decimal digits read back as the number they were written for.
pub proof fn law_decimal_reads_back(n: int, max: int)
    requires
        0 <= n <= max,
    ensures
        parsed_number(decimal(n), 10, max) == Some(n),
{
    lemma_decimal(n);
    assert(decimal(n)[0] != '+');
}

/// What [`decimal`] writes is a numeral worth `n`.
proof fn lemma_decimal(n: int)
    requires
        0 <= n,
    ensures
        is_numeral(decimal(n), 10),
        numeral_value(decimal(n), 10) == n,
        decimal(n)[0] != '+',
    decreases n,
{
    if n < 10 {
        assert(decimal(n).drop_last() =~= Seq::<char>::empty());
        assert(numeral_value(decimal(n).drop_last(), 10) == 0);
    } else {
        lemma_decimal(n / 10);
        assert(decimal(n).drop_last() =~= decimal(n / 10));
        assert(decimal(n)[0] == decimal(n / 10)[0]);
    }
}

// ---------------------------------------------------------------------------
// Order

/// Whether `a` comes before `b` in the order of code points.
pub open spec fn comes_before(a: Seq<char>, b: Seq<char>) -> bool
    decreases a.len(),
{
    if b.len() == 0 {
        false
    } else if a.len() == 0 {
        true
    } else if a[0] != b[0] {
        a[0] < b[0]
    } else {
        comes_before(a.skip(1), b.skip(1))
    }
}

/// Executable [`comes_before`].
pub fn text_before(a: &str, b: &str) -> (before: bool)
    ensures
        before == comes_before(a@, b@),
{
    let a: Vec<char> = chars_of(a);
    let b: Vec<char> = chars_of(b);
    let mut i: usize = 0;
    assert(a@.skip(0) =~= a@);
    assert(b@.skip(0) =~= b@);
    while i < a.len() && i < b.len() && a[i] == b[i]
        invariant
            i <= a@.len(),
            i <= b@.len(),
            comes_before(a@, b@) == comes_before(a@.skip(i as int), b@.skip(i as int)),
        decreases a@.len() - i,
    {
        assert(a@.skip(i as int).skip(1) =~= a@.skip(i + 1));
        assert(b@.skip(i as int).skip(1) =~= b@.skip(i + 1));
        i = i + 1;
    }
    if i == b.len() {
        false
    } else if i == a.len() {
        true
    } else {
        a[i] < b[i]
    }
}

/// No text comes before itself.
pub proof fn lemma_before_irreflexive(a: Seq<char>)
    ensures
        !comes_before(a, a),
    decreases a.len(),
{
    if a.len() > 0 {
        lemma_before_irreflexive(a.skip(1));
    }
}

/// The order of texts is transitive.
pub proof fn lemma_before_transitive(a: Seq<char>, b: Seq<char>, c: Seq<char>)
    requires
        comes_before(a, b),
        comes_before(b, c),
    ensures
        comes_before(a, c),
    decreases a.len(),
{
    if a.len() > 0 && a[0] == b[0] && b[0] == c[0] {
        lemma_before_transitive(a.skip(1), b.skip(1), c.skip(1));
    }
}

/// Of two different texts one comes before the other.
pub proof fn lemma_before_total(a: Seq<char>, b: Seq<char>)
    ensures
        a == b || comes_before(a, b) || comes_before(b, a),
    decreases a.len(),
{
    if a.len() > 0 && b.len() > 0 && a[0] == b[0] {
        lemma_before_total(a.skip(1), b.skip(1));
        if a.skip(1) == b.skip(1) {
            assert(a =~= seq![a[0]] + a.skip(1));
            assert(b =~= seq![b[0]] + b.skip(1));
        }
    } else if a.len() == 0 && b.len() == 0 {
        assert(a =~= b);
    }
}

/// Whether `a` comes before `b` where either may be missing; what is missing
/// comes first.
pub open spec fn optional_before(a: Option<String>, b: Option<String>) -> bool {
    match (a, b) {
        (None, Some(_)) => true,
        (Some(x), Some(y)) => comes_before(x@, y@),
        (_, None) => false,
    }
}

/// A copy of an optional text.
pub fn copy_optional(value: &Option<String>) -> (copy: Option<String>)
    ensures
        copy == *value,
{
    match value {
        Some(text) => Some(text.clone()),
        None => None,
    }
}

/// Executable [`optional_before`].
pub fn optional_text_before(a: &Option<String>, b: &Option<String>) -> (before: bool)
    ensures
        before == optional_before(*a, *b),
{
    match (a, b) {
        (None, Some(_)) => true,
        (Some(x), Some(y)) => text_before(x.as_str(), y.as_str()),
        (_, None) => false,
    }
}

/// Whether two optional texts are both missing, or hold the same characters.
pub open spec fn same_optional(a: Option<String>, b: Option<String>) -> bool {
    match (a, b) {
        (None, None) => true,
        (Some(x), Some(y)) => x@ == y@,
        _ => false,
    }
}

/// The order of optional texts is a total order up to equal characters.
pub proof fn lemma_optional_order(a: Option<String>, b: Option<String>, c: Option<String>)
    ensures
        optional_before(a, b) && optional_before(b, c) ==> optional_before(a, c),
        same_optional(a, b) <==> !optional_before(a, b) && !optional_before(b, a),
        optional_before(a, b) ==> !optional_before(b, a),
{
    if let (Some(x), Some(y)) = (a, b) {
        lemma_before_total(x@, y@);
        lemma_before_irreflexive(x@);
        if comes_before(x@, y@) && comes_before(y@, x@) {
            lemma_before_transitive(x@, y@, x@);
        }
        if let Some(z) = c {
            if comes_before(x@, y@) && comes_before(y@, z@) {
                lemma_before_transitive(x@, y@, z@);
            }
        }
    }
}

/// Of two texts that agree in their first `n` characters, the one with the
/// smaller character there comes first, and one that ends there comes before one
/// that goes on.
pub proof fn law_order_is_by_the_first_difference(a: Seq<char>, b: Seq<char>, n: int)
    requires
        0 <= n <= a.len(),
        n <= b.len(),
        forall|i: int| 0 <= i < n ==> a[i] == b[i],
    ensures
        n < a.len() && n < b.len() && a[n] != b[n] ==> (comes_before(a, b) <==> a[n] < b[n]),
        n == a.len() && n < b.len() ==> comes_before(a, b) && !comes_before(b, a),
        n == a.len() && n == b.len() ==> !comes_before(a, b),
    decreases n,
{
    if n > 0 {
        law_order_is_by_the_first_difference(a.skip(1), b.skip(1), n - 1);
    }
}

/// What is missing comes before any text, and two texts come in their order.
pub proof fn law_missing_comes_first(a: String, b: String)
    ensures
        optional_before(None, Some(b)),
        !optional_before(Some(a), None),
        !optional_before(None, None),
        optional_before(Some(a), Some(b)) <==> comes_before(a@, b@),
{
}

/// What is trimmed off the end is slashes, and no slash is left there.
pub proof fn law_slashes_are_trimmed_off_the_end(text: Seq<char>)
    ensures
        trim_end_slashes(text).is_prefix_of(text),
        forall|i: int|
            trim_end_slashes(text).len() <= i < text.len() ==> #[trigger] text[i] == '/',
        trim_end_slashes(text).len() > 0 ==> trim_end_slashes(text).last() != '/',
    decreases text.len(),
{
    lemma_trim_end_slashes(text);
    if text.len() > 0 && text.last() == '/' {
        law_slashes_are_trimmed_off_the_end(text.drop_last());
        assert forall|i: int|
            trim_end_slashes(text).len() <= i < text.len() implies #[trigger] text[i] == '/' by {
            if i < text.len() - 1 {
                assert(text.drop_last()[i] == text[i]);
            }
        }
    }
}

/// What is trimmed off the start is slashes, and no slash is left there.
pub proof fn law_slashes_are_trimmed_off_the_start(text: Seq<char>)
    ensures
        trim_start_slashes(text).len() <= text.len(),
        trim_start_slashes(text) == text.skip(text.len() - trim_start_slashes(text).len()),
        forall|i: int|
            0 <= i < text.len() - trim_start_slashes(text).len() ==> #[trigger] text[i] == '/',
        trim_start_slashes(text).len() > 0 ==> trim_start_slashes(text)[0] != '/',
    decreases text.len(),
{
    if text.len() > 0 && text[0] == '/' {
        let rest = text.skip(1);
        law_slashes_are_trimmed_off_the_start(rest);
        let cut = rest.len() - trim_start_slashes(rest).len();
        assert(rest.skip(cut) =~= text.skip(cut + 1));
        assert forall|i: int|
            0 <= i < text.len() - trim_start_slashes(text).len() implies #[trigger] text[i] == '/' by {
            if i > 0 {
                assert(rest[i - 1] == text[i]);
            }
        }
    } else {
        assert(text.skip(0) =~= text);
    }
}

/// Trimming takes off white space only, at both ends, and leaves none there.
pub proof fn law_white_space_is_trimmed_off_both_ends(text: Seq<char>)
    ensures
        exists|before: Seq<char>, after: Seq<char>|
            is_blank(before) && is_blank(after) && text == before + trim_white(text) + after,
        trim_white(text).len() > 0 ==> !is_white_space(trim_white(text)[0]) && !is_white_space(
            trim_white(text).last(),
        ),
{
    let kept = trim_end_white(text);
    lemma_trim_end_white(text);
    lemma_trim_start_white(kept);
    let after = text.skip(kept.len() as int);
    let before = kept.take(kept.len() - trim_white(text).len());
    assert(text =~= before + trim_white(text) + after);
    assert(is_blank(before) && is_blank(after));
}

proof fn lemma_trim_end_white(text: Seq<char>)
    ensures
        trim_end_white(text).len() <= text.len(),
        trim_end_white(text) == text.take(trim_end_white(text).len() as int),
        forall|i: int|
            trim_end_white(text).len() <= i < text.len() ==> is_white_space(#[trigger] text[i]),
        trim_end_white(text).len() > 0 ==> !is_white_space(trim_end_white(text).last()),
    decreases text.len(),
{
    if text.len() > 0 && is_white_space(text.last()) {
        lemma_trim_end_white(text.drop_last());
        let kept: int = trim_end_white(text).len() as int;
        assert(text.drop_last().take(kept) =~= text.take(kept));
        assert forall|i: int| kept <= i < text.len() implies is_white_space(#[trigger] text[i]) by {
            if i < text.len() - 1 {
                assert(text.drop_last()[i] == text[i]);
            }
        }
    } else {
        assert(text.take(text.len() as int) =~= text);
    }
}

proof fn lemma_trim_start_white(text: Seq<char>)
    ensures
        trim_start_white(text).len() <= text.len(),
        trim_start_white(text) == text.skip(text.len() - trim_start_white(text).len()),
        forall|i: int|
            0 <= i < text.len() - trim_start_white(text).len() ==> is_white_space(#[trigger] text[i]),
        trim_start_white(text).len() > 0 ==> !is_white_space(trim_start_white(text)[0]),
    decreases text.len(),
{
    if text.len() > 0 && is_white_space(text[0]) {
        let rest = text.skip(1);
        lemma_trim_start_white(rest);
        let cut = rest.len() - trim_start_white(rest).len();
        assert(rest.skip(cut) =~= text.skip(cut + 1));
        assert forall|i: int| 0 <= i < cut + 1 implies is_white_space(#[trigger] text[i]) by {
            if i > 0 {
                assert(rest[i - 1] == text[i]);
            }
        }
    } else {
        assert(text.skip(0) =~= text);
    }
}

/// Texts are the same up to the case of ASCII letters just where at each place
/// they have the same character, or the two cases of one letter.
pub proof fn law_case_is_of_ascii_letters(a: Seq<char>, b: Seq<char>)
    ensures
        same_ignoring_case(a, b) <==> a.len() == b.len() && forall|i: int|
            #![trigger a[i], b[i]]
            0 <= i < a.len() ==> {
                ||| a[i] == b[i]
                ||| 'A' <= a[i] <= 'Z' && b[i] as int == a[i] as int + 32
                ||| 'A' <= b[i] <= 'Z' && a[i] as int == b[i] as int + 32
            },
{
    if same_ignoring_case(a, b) {
        assert forall|i: int|
            #![trigger a[i], b[i]]
            0 <= i < a.len() implies {
            ||| a[i] == b[i]
            ||| 'A' <= a[i] <= 'Z' && b[i] as int == a[i] as int + 32
            ||| 'A' <= b[i] <= 'Z' && a[i] as int == b[i] as int + 32
        } by {
            assert(lower_char(a[i]) == lower_char(b[i]));
        }
    }
    if a.len() == b.len() && forall|i: int|
        #![trigger a[i], b[i]]
        0 <= i < a.len() ==> {
            ||| a[i] == b[i]
            ||| 'A' <= a[i] <= 'Z' && b[i] as int == a[i] as int + 32
            ||| 'A' <= b[i] <= 'Z' && a[i] as int == b[i] as int + 32
        } {
        assert forall|i: int| 0 <= i < a.len() implies lower_char(#[trigger] a[i]) == lower_char(
            b[i],
        ) by {
            assert(a[i] == a[i] && b[i] == b[i]);
        }
    }
}

/// A number is written without a sign or leading zeros, in decimal digits.
pub proof fn law_decimal_has_no_leading_zero(n: int)
    requires
        0 <= n,
    ensures
        decimal(n).len() > 0,
        forall|i: int| 0 <= i < decimal(n).len() ==> '0' <= #[trigger] decimal(n)[i] <= '9',
        decimal(n)[0] == '0' ==> n == 0,
    decreases n,
{
    if n >= 10 {
        law_decimal_has_no_leading_zero(n / 10);
    }
}

/// One digit more multiplies the number by the radix and adds the digit.
pub proof fn law_numerals_are_positional(digits: Seq<char>, c: char, max: int)
    requires
        '0' <= c <= '9',
        parsed_number(digits, 10, max) is Some,
        parsed_number(digits, 10, max)->Some_0 * 10 + (c as int - '0' as int) <= max,
    ensures
        parsed_number(digits.push(c), 10, max) == Some(
            parsed_number(digits, 10, max)->Some_0 * 10 + (c as int - '0' as int),
        ),
        parsed_number(seq![c], 10, 9) == Some(c as int - '0' as int),
{
    let plain = without_plus(digits);
    assert(without_plus(digits.push(c)) =~= plain.push(c));
    assert(plain.push(c).drop_last() =~= plain);
    assert(without_plus(seq![c]) =~= seq![c]);
    assert(seq![c].drop_last() =~= Seq::<char>::empty());
    assert(numeral_value(seq![c].drop_last(), 10) == 0);
    assert(digit(c) < 10);
    assert forall|i: int| 0 <= i < plain.push(c).len() implies digit(#[trigger] plain.push(c)[i]) < 10 by {
        if i < plain.len() {
            assert(digit(plain[i]) < 10);
        }
    }
}

/// White space is the tab, the line breaks, the space, and the wider and
/// narrower spaces of Unicode: no letter, digit or slash, and no zero-width
/// character.
pub proof fn law_white_space_is_what_unicode_lists(c: char)
    ensures
        is_white_space(c) <==> {
            ||| 9 <= c as int <= 13
            ||| c == ' '
            ||| c as int == 133
            ||| c as int == 160
            ||| c as int == 5760
            ||| 8192 <= c as int <= 8202
            ||| 8232 <= c as int <= 8233
            ||| c as int == 8239
            ||| c as int == 8287
            ||| c as int == 12288
        },
{
}

/// Beyond nine the digits are the letters, in either case; nothing else is a
/// digit of a radix up to 36.
pub proof fn law_letters_are_digits_in_either_case(c: char)
    ensures
        '0' <= c <= '9' ==> digit(c) == c as int - '0' as int,
        'a' <= c <= 'z' ==> digit(c) == 10 + (c as int - 'a' as int) && digit(c) == digit(
            (c as u8 - 32) as char,
        ),
        !('0' <= c <= '9') && !('a' <= c <= 'z') && !('A' <= c <= 'Z') ==> digit(c) >= 36,
{
}

/// One plus sign ahead of a number makes no difference; any other sign, a space
/// or nothing at all makes it no number.
pub proof fn law_only_a_plus_sign_may_lead(digits: Seq<char>, radix: int, max: int)
    requires
        2 <= radix <= 36,
    ensures
        digits.len() == 0 || digits[0] != '+' ==> parsed_number(seq!['+'] + digits, radix, max)
            == parsed_number(digits, radix, max),
        parsed_number(seq!['-'] + digits, radix, max) is None,
        parsed_number(seq![' '] + digits, radix, max) is None,
        parsed_number(Seq::empty(), radix, max) is None,
{
    assert((seq!['+'] + digits).skip(1) =~= digits);
    let negative = seq!['-'] + digits;
    assert(digit(negative[0]) == 36);
    let spaced = seq![' '] + digits;
    assert(digit(spaced[0]) == 36);
}

} // verus!
