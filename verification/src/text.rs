//! Texts as sequences of characters: trimming, splitting, numbers.
use vstd::prelude::*;

verus! {

/// `String::push` appends one character to the end of the string.
pub assume_specification[ String::push ](s: &mut String, c: char)
    ensures
        final(s)@ == old(s)@.push(c),
;

/// `String::pop` takes the last character from the string, if it has one.
pub assume_specification[ String::pop ](s: &mut String) -> (c: Option<char>)
    ensures
        old(s)@.len() == 0 ==> c is None && final(s)@ == old(s)@,
        old(s)@.len() > 0 ==> c == Some(old(s)@.last()) && final(s)@ == old(s)@.drop_last(),
;

/// The texts that a list of strings holds.
pub open spec fn texts(list: Seq<String>) -> Seq<Seq<char>> {
    Seq::new(list.len(), |i: int| list[i]@)
}

/// The text that an optional string holds.
pub open spec fn optional_text(s: Option<String>) -> Option<Seq<char>> {
    match s {
        Some(t) => Some(t@),
        None => None,
    }
}

/// The texts that a result holds.
pub open spec fn result_text(r: Result<String, String>) -> Result<Seq<char>, Seq<char>> {
    match r {
        Ok(text) => Ok(text@),
        Err(text) => Err(text@),
    }
}

/// White space, as the Unicode property `White_Space` defines it.
pub open spec fn is_space(c: char) -> bool {
    let n = c as u32;
    ||| 0x09 <= n <= 0x0d
    ||| n == 0x20 || n == 0x85 || n == 0xa0 || n == 0x1680
    ||| 0x2000 <= n <= 0x200a
    ||| n == 0x2028 || n == 0x2029 || n == 0x202f || n == 0x205f || n == 0x3000
}

/// The predicate "is white space", as a value.
pub open spec fn space_here() -> spec_fn(char) -> bool {
    |c: char| is_space(c)
}

/// The predicate "is the character `sep`", as a value.
pub open spec fn at(sep: char) -> spec_fn(char) -> bool {
    |c: char| c == sep
}

/// The text without the white space at its start.
pub open spec fn trim_start(s: Seq<char>) -> Seq<char>
    decreases s.len(),
{
    if s.len() > 0 && is_space(s[0]) {
        trim_start(s.skip(1))
    } else {
        s
    }
}

/// The text without the white space at its end.
pub open spec fn trim_end(s: Seq<char>) -> Seq<char>
    decreases s.len(),
{
    if s.len() > 0 && is_space(s.last()) {
        trim_end(s.drop_last())
    } else {
        s
    }
}

/// The text without the white space at both ends.
pub open spec fn trimmed(s: Seq<char>) -> Seq<char> {
    trim_end(trim_start(s))
}

/// How many characters stand before the first one on which `stop` holds (all of them if there is
/// none).
pub open spec fn prefix_len(s: Seq<char>, stop: spec_fn(char) -> bool) -> int
    decreases s.len(),
{
    if s.len() == 0 || stop(s[0]) {
        0
    } else {
        1 + prefix_len(s.skip(1), stop)
    }
}

/// What `prefix_len` counts: no character before it stops, and the one there does.
pub proof fn lemma_prefix_len(s: Seq<char>, stop: spec_fn(char) -> bool)
    ensures
        0 <= prefix_len(s, stop) <= s.len(),
        forall|i: int| 0 <= i < prefix_len(s, stop) ==> !stop(#[trigger] s[i]),
        prefix_len(s, stop) < s.len() ==> stop(s[prefix_len(s, stop)]),
    decreases s.len(),
{
    if s.len() != 0 && !stop(s[0]) {
        let rest = s.skip(1);
        lemma_prefix_len(rest, stop);
        assert forall|i: int| 0 <= i < prefix_len(s, stop) implies !stop(#[trigger] s[i]) by {
            if i > 0 {
                assert(rest[i - 1] == s[i]);
            }
        }
    }
}

/// `prefix_len` is the only length with its property.
pub proof fn lemma_prefix_len_is(s: Seq<char>, stop: spec_fn(char) -> bool, n: int)
    requires
        0 <= n <= s.len(),
        forall|i: int| 0 <= i < n ==> !stop(#[trigger] s[i]),
        n < s.len() ==> stop(s[n]),
    ensures
        prefix_len(s, stop) == n,
{
    lemma_prefix_len(s, stop);
    let m = prefix_len(s, stop);
    if m < n {
        assert(!stop(s[m]));
    } else if n < m {
        assert(!stop(s[n]));
    }
}

/// The maximal runs of characters that are no white space, in order.
pub open spec fn word_list(s: Seq<char>) -> Seq<Seq<char>>
    decreases s.len(),
{
    if s.len() == 0 {
        Seq::empty()
    } else if is_space(s[0]) {
        word_list(s.skip(1))
    } else {
        let n = prefix_len(s, space_here());
        proof {
            lemma_prefix_len(s, space_here());
        }
        seq![s.take(n)] + word_list(s.skip(n))
    }
}

/// The text cut at `sep` from the left, into `n` pieces at most; the last piece keeps the rest.
pub open spec fn pieces(s: Seq<char>, sep: char, n: nat) -> Seq<Seq<char>>
    decreases n,
{
    let k = prefix_len(s, at(sep));
    if n <= 1 || k >= s.len() {
        seq![s]
    } else {
        seq![s.take(k)] + pieces(s.skip(k + 1), sep, (n - 1) as nat)
    }
}

/// Where `pattern` first occurs in the text.
pub open spec fn first_match(s: Seq<char>, pattern: Seq<char>) -> Option<int>
    decreases s.len(),
{
    if pattern.is_prefix_of(s) {
        Some(0)
    } else if s.len() == 0 {
        None
    } else {
        match first_match(s.skip(1), pattern) {
            Some(i) => Some(i + 1),
            None => None,
        }
    }
}

/// The text before and the text after the first occurrence of `pattern`.
pub open spec fn parted(s: Seq<char>, pattern: Seq<char>) -> Option<(Seq<char>, Seq<char>)> {
    match first_match(s, pattern) {
        Some(i) => Some((s.take(i), s.skip(i + pattern.len()))),
        None => None,
    }
}

/// A line without the carriage return that ends it, if one does.
pub open spec fn without_return(s: Seq<char>) -> Seq<char> {
    if s.len() > 0 && s.last() == '\r' {
        s.drop_last()
    } else {
        s
    }
}

/// The lines of the text. A line ends with a line feed, which may follow a carriage return; what
/// follows the last line feed is a line too, unless it is empty.
pub open spec fn line_list(s: Seq<char>) -> Seq<Seq<char>>
    decreases s.len(),
{
    let k = prefix_len(s, at('\n'));
    if s.len() == 0 {
        Seq::empty()
    } else if k >= s.len() {
        seq![s]
    } else {
        proof {
            lemma_prefix_len(s, at('\n'));
        }
        seq![without_return(s.take(k))] + line_list(s.skip(k + 1))
    }
}

/// The texts one after the other, with `sep` between them.
pub open spec fn joined(parts: Seq<Seq<char>>, sep: Seq<char>) -> Seq<char>
    decreases parts.len(),
{
    if parts.len() == 0 {
        Seq::empty()
    } else if parts.len() == 1 {
        parts[0]
    } else {
        joined(parts.drop_last(), sep) + sep + parts.last()
    }
}

/// A decimal digit.
pub open spec fn is_digit(c: char) -> bool {
    '0' <= c <= '9'
}

/// The number that a decimal digit stands for.
pub open spec fn digit_value(c: char) -> nat {
    if is_digit(c) {
        (c as nat - '0' as nat) as nat
    } else {
        0
    }
}

/// The number that decimal digits stand for.
pub open spec fn digits_value(s: Seq<char>) -> nat
    decreases s.len(),
{
    if s.len() == 0 {
        0
    } else {
        digits_value(s.drop_last()) * 10 + digit_value(s.last())
    }
}

/// The text behind an optional plus sign.
pub open spec fn unsigned(s: Seq<char>) -> Seq<char> {
    if s.len() > 0 && s[0] == '+' {
        s.skip(1)
    } else {
        s
    }
}

/// The number that the text reads as: an optional plus sign and at least one decimal digit, at
/// most `max`.
pub open spec fn number(s: Seq<char>, max: nat) -> Option<nat> {
    let digits = unsigned(s);
    if digits.len() > 0 && (forall|i: int| 0 <= i < digits.len() ==> is_digit(#[trigger] digits[i]))
        && digits_value(digits) <= max {
        Some(digits_value(digits))
    } else {
        None
    }
}

/// The decimal digit for a number below ten.
pub open spec fn digit_char(n: nat) -> char {
    ('0' as nat + n) as char
}

/// The number in decimal, without leading zeros.
pub open spec fn decimal(n: nat) -> Seq<char>
    decreases n,
{
    if n < 10 {
        seq![digit_char(n)]
    } else {
        decimal(n / 10).push(digit_char(n % 10))
    }
}

/// The characters of a text, in order.
pub fn chars_of(s: &str) -> (chars: Vec<char>)
    ensures
        chars@ == s@,
{
    let mut chars: Vec<char> = Vec::new();
    for c in it: s.chars()
        invariant
            it.seq() == s@,
            chars@ == s@.take(it.index() as int),
    {
        chars.push(c);
    }
    chars
}

/// The text that a part of the characters makes.
fn text_of(chars: &Vec<char>, from: usize, to: usize) -> (text: String)
    requires
        from <= to <= chars.len(),
    ensures
        text@ == chars@.subrange(from as int, to as int),
{
    let mut text = String::new();
    let mut i: usize = from;
    while i < to
        invariant
            from <= i <= to <= chars.len(),
            text@ == chars@.subrange(from as int, i as int),
        decreases to - i,
    {
        text.push(chars[i]);
        i += 1;
        assert(chars@.subrange(from as int, i as int) == chars@.subrange(
            from as int,
            i - 1,
        ).push(chars[i - 1]));
    }
    text
}

/// Whether the two texts are the same.
pub fn same(a: &str, b: &str) -> (r: bool)
    ensures
        r == (a@ == b@),
{
    let left = chars_of(a);
    let right = chars_of(b);
    if left.len() != right.len() {
        return false;
    }
    let mut i: usize = 0;
    while i < left.len()
        invariant
            left@ == a@,
            right@ == b@,
            left.len() == right.len(),
            i <= left.len(),
            forall|j: int| 0 <= j < i ==> left[j] == right[j],
        decreases left.len() - i,
    {
        if left[i] != right[i] {
            assert(a@[i as int] != b@[i as int]);
            return false;
        }
        i += 1;
    }
    assert(a@ =~= b@);
    true
}

/// Whether the text begins with `prefix`.
pub fn starts_with(s: &str, prefix: &str) -> (r: bool)
    ensures
        r == prefix@.is_prefix_of(s@),
{
    let n = prefix.unicode_len();
    if s.unicode_len() < n {
        return false;
    }
    let start = s.substring_char(0, n);
    same(prefix, start)
}

/// Whether the text ends with `suffix`.
pub fn ends_with(s: &str, suffix: &str) -> (r: bool)
    ensures
        r == suffix@.is_suffix_of(s@),
{
    let n = suffix.unicode_len();
    let len = s.unicode_len();
    if len < n {
        return false;
    }
    let end = s.substring_char(len - n, len);
    same(suffix, end)
}

/// Whether the character is white space.
pub fn space(c: char) -> (r: bool)
    ensures
        r == is_space(c),
{
    let n: u32 = c as u32;
    (0x09 <= n && n <= 0x0d) || n == 0x20 || n == 0x85 || n == 0xa0 || n == 0x1680
        || (0x2000 <= n && n <= 0x200a) || n == 0x2028 || n == 0x2029 || n == 0x202f || n == 0x205f
        || n == 0x3000
}

/// The text without the white space at both ends.
pub fn trim(s: &str) -> (t: &str)
    ensures
        t@ == trimmed(s@),
{
    let chars = chars_of(s);
    let mut start: usize = 0;
    assert(s@.skip(0) == s@);
    while start < chars.len() && space(chars[start])
        invariant
            chars@ == s@,
            start <= chars.len(),
            trim_start(s@) == trim_start(s@.skip(start as int)),
        decreases chars.len() - start,
    {
        assert(s@.skip(start as int).skip(1) =~= s@.skip(start + 1));
        start += 1;
    }
    let mut end: usize = chars.len();
    let ghost tail = s@.skip(start as int);
    assert(trim_start(s@) == tail);
    assert(tail == s@.subrange(start as int, end as int));
    while end > start && space(chars[end - 1])
        invariant
            chars@ == s@,
            start <= end <= chars.len(),
            trim_end(tail) == trim_end(s@.subrange(start as int, end as int)),
        decreases end,
    {
        assert(s@.subrange(start as int, end as int).drop_last() =~= s@.subrange(
            start as int,
            end - 1,
        ));
        end -= 1;
    }
    s.substring_char(start, end)
}

/// The words of a text: its maximal runs of characters that are no white space.
pub fn words(s: &str) -> (list: Vec<String>)
    ensures
        texts(list@) == word_list(s@),
{
    let chars = chars_of(s);
    let mut list: Vec<String> = Vec::new();
    let mut i: usize = 0;
    assert(s@.skip(0) == s@);
    assert(texts(list@) + word_list(s@) =~= word_list(s@));
    while i < chars.len()
        invariant
            chars@ == s@,
            i <= chars.len(),
            texts(list@) + word_list(s@.skip(i as int)) == word_list(s@),
        decreases chars.len() - i,
    {
        let ghost rest = s@.skip(i as int);
        if space(chars[i]) {
            assert(rest.skip(1) =~= s@.skip(i + 1));
            i += 1;
        } else {
            let start: usize = i;
            while i < chars.len() && !space(chars[i])
                invariant
                    chars@ == s@,
                    start <= i <= chars.len(),
                    forall|j: int| start <= j < i ==> !is_space(#[trigger] s@[j]),
                decreases chars.len() - i,
            {
                i += 1;
            }
            let ghost before = list@;
            list.push(text_of(&chars, start, i));
            proof {
                let n = (i - start) as int;
                lemma_prefix_len_is(rest, space_here(), n);
                assert(rest.take(n) =~= s@.subrange(start as int, i as int));
                assert(rest.skip(n) =~= s@.skip(i as int));
                assert(texts(list@) =~= texts(before).push(rest.take(n)));
                assert(texts(before) + (seq![rest.take(n)] + word_list(rest.skip(n))) =~= texts(
                    list@,
                ) + word_list(s@.skip(i as int)));
            }
        }
    }
    assert(s@.skip(i as int).len() == 0);
    assert(texts(list@) + word_list(s@.skip(i as int)) =~= texts(list@));
    list
}

/// How many characters from `from` on stand before the first `sep`.
fn run_before(chars: &Vec<char>, from: usize, sep: char) -> (n: usize)
    requires
        from <= chars.len(),
    ensures
        n == prefix_len(chars@.skip(from as int), at(sep)),
        from + n <= chars.len(),
{
    let mut i: usize = from;
    while i < chars.len() && chars[i] != sep
        invariant
            from <= i <= chars.len(),
            forall|j: int| from <= j < i ==> #[trigger] chars@[j] != sep,
        decreases chars.len() - i,
    {
        i += 1;
    }
    proof {
        lemma_prefix_len_is(chars@.skip(from as int), at(sep), i - from);
    }
    i - from
}

/// The text cut at `sep` from the left, into `n` pieces at most.
pub fn split_n(s: &str, sep: char, n: usize) -> (list: Vec<String>)
    requires
        n > 0,
    ensures
        texts(list@) == pieces(s@, sep, n as nat),
{
    let chars = chars_of(s);
    let mut list: Vec<String> = Vec::new();
    let mut from: usize = 0;
    let mut left: usize = n;
    assert(s@.skip(0) == s@);
    assert(texts(list@) + pieces(s@, sep, n as nat) =~= pieces(s@, sep, n as nat));
    loop
        invariant
            chars@ == s@,
            from <= chars.len(),
            left > 0,
            texts(list@) + pieces(s@.skip(from as int), sep, left as nat) == pieces(
                s@,
                sep,
                n as nat,
            ),
        decreases left,
    {
        let ghost rest = s@.skip(from as int);
        let ghost before = list@;
        let k: usize = run_before(&chars, from, sep);
        if left == 1 || from + k == chars.len() {
            list.push(text_of(&chars, from, chars.len()));
            proof {
                assert(rest =~= s@.subrange(from as int, chars.len() as int));
                assert(texts(list@) =~= texts(before) + seq![rest]);
            }
            return list;
        }
        list.push(text_of(&chars, from, from + k));
        proof {
            assert(rest.take(k as int) =~= s@.subrange(from as int, from + k));
            assert(rest.skip(k + 1) =~= s@.skip(from + k + 1));
            assert(texts(list@) =~= texts(before).push(rest.take(k as int)));
            assert(texts(before) + (seq![rest.take(k as int)] + pieces(
                rest.skip(k + 1),
                sep,
                (left - 1) as nat,
            )) =~= texts(list@) + pieces(s@.skip(from + k + 1), sep, (left - 1) as nat));
        }
        from = from + k + 1;
        left -= 1;
    }
}

/// The text before and the text after the first occurrence of `pattern`.
pub fn split_once(s: &str, pattern: &str) -> (parts: Option<(String, String)>)
    ensures
        match (parts, parted(s@, pattern@)) {
            (Some(p), Some(q)) => p.0@ == q.0 && p.1@ == q.1,
            (None, None) => true,
            _ => false,
        },
{
    let len: usize = s.unicode_len();
    let n: usize = pattern.unicode_len();
    let mut i: usize = 0;
    assert(s@.skip(0) == s@);
    loop
        invariant
            len == s@.len(),
            n == pattern@.len(),
            i <= len,
            match (first_match(s@, pattern@), first_match(s@.skip(i as int), pattern@)) {
                (Some(a), Some(b)) => a == i + b,
                (None, None) => true,
                _ => false,
            },
        decreases len - i,
    {
        let rest = s.substring_char(i, len);
        assert(rest@ =~= s@.skip(i as int));
        if starts_with(rest, pattern) {
            let before = s.substring_char(0, i).to_string();
            let after = s.substring_char(i + n, len).to_string();
            assert(before@ =~= s@.take(i as int));
            assert(after@ =~= s@.skip(i + n));
            return Some((before, after));
        }
        if i == len {
            return None;
        }
        assert(s@.skip(i as int).skip(1) =~= s@.skip(i + 1));
        i += 1;
    }
}

/// The lines of a text.
pub fn lines(s: &str) -> (list: Vec<String>)
    ensures
        texts(list@) == line_list(s@),
{
    let chars = chars_of(s);
    let mut list: Vec<String> = Vec::new();
    let mut from: usize = 0;
    assert(s@.skip(0) == s@);
    assert(texts(list@) + line_list(s@) =~= line_list(s@));
    while from < chars.len()
        invariant
            chars@ == s@,
            from <= chars.len(),
            texts(list@) + line_list(s@.skip(from as int)) == line_list(s@),
        decreases chars.len() - from,
    {
        let ghost rest = s@.skip(from as int);
        let ghost before = list@;
        let k: usize = run_before(&chars, from, '\n');
        if from + k == chars.len() {
            list.push(text_of(&chars, from, chars.len()));
            proof {
                assert(rest =~= s@.subrange(from as int, chars.len() as int));
                assert(texts(list@) =~= texts(before) + seq![rest]);
            }
            return list;
        }
        let end: usize = if k > 0 && chars[from + k - 1] == '\r' {
            from + k - 1
        } else {
            from + k
        };
        list.push(text_of(&chars, from, end));
        proof {
            let line = without_return(rest.take(k as int));
            assert(line =~= s@.subrange(from as int, end as int));
            assert(rest.skip(k + 1) =~= s@.skip(from + k + 1));
            assert(texts(list@) =~= texts(before).push(line));
            assert(texts(before) + (seq![line] + line_list(rest.skip(k + 1))) =~= texts(list@)
                + line_list(s@.skip(from + k + 1)));
        }
        from = from + k + 1;
    }
    assert(s@.skip(from as int).len() == 0);
    assert(texts(list@) + line_list(s@.skip(from as int)) =~= texts(list@));
    list
}

/// The texts one after the other, with `sep` between them.
pub fn join(parts: &Vec<String>, sep: &str) -> (r: String)
    ensures
        r@ == joined(texts(parts@), sep@),
{
    let mut r = String::new();
    let mut i: usize = 0;
    while i < parts.len()
        invariant
            i <= parts.len(),
            r@ == joined(texts(parts@).take(i as int), sep@),
        decreases parts.len() - i,
    {
        let ghost all = texts(parts@);
        if i > 0 {
            r.append(sep);
        }
        r.append(parts[i].as_str());
        proof {
            assert(all.take(i + 1).drop_last() =~= all.take(i as int));
            assert(all.take(i + 1).last() == parts[i as int]@);
            if i == 0 {
                assert(r@ =~= parts[0]@);
            }
        }
        i += 1;
    }
    assert(texts(parts@).take(i as int) =~= texts(parts@));
    r
}

proof fn lemma_digits_value_take(s: Seq<char>, i: int)
    requires
        0 <= i <= s.len(),
    ensures
        digits_value(s.take(i)) <= digits_value(s),
    decreases s.len() - i,
{
    if i == s.len() {
        assert(s.take(i) =~= s);
    } else {
        lemma_digits_value_take(s, i + 1);
        assert(s.take(i + 1).drop_last() =~= s.take(i));
    }
}

/// The number that the text reads as, if it is at most `max`.
fn parse_number(s: &str, max: u64) -> (r: Option<u64>)
    ensures
        r matches Some(n) ==> number(s@, max as nat) == Some(n as nat),
        r is None ==> number(s@, max as nat) is None,
{
    let chars = chars_of(s);
    let start: usize = if chars.len() > 0 && chars[0] == '+' {
        1
    } else {
        0
    };
    let ghost digits = unsigned(s@);
    assert(digits =~= s@.skip(start as int));
    if start == chars.len() {
        return None;
    }
    let mut value: u64 = 0;
    let mut i: usize = start;
    assert(digits.take(0) =~= Seq::<char>::empty());
    while i < chars.len()
        invariant
            chars@ == s@,
            start <= i <= chars.len(),
            digits == unsigned(s@),
            digits == s@.skip(start as int),
            value == digits_value(digits.take(i - start)),
            value <= max,
            forall|j: int| 0 <= j < i - start ==> is_digit(#[trigger] digits[j]),
        decreases chars.len() - i,
    {
        let c = chars[i];
        assert(c == digits[i - start]);
        if c < '0' || c > '9' {
            assert(!is_digit(digits[i - start]));
            return None;
        }
        let d: u32 = c as u32 - 48;
        let next: u128 = value as u128 * 10 + d as u128;
        proof {
            let longer = digits.take(i - start + 1);
            assert(longer.drop_last() =~= digits.take(i - start));
            assert(digits_value(longer) == next);
            lemma_digits_value_take(digits, i - start + 1);
        }
        if next > max as u128 {
            return None;
        }
        value = next as u64;
        i += 1;
    }
    assert(digits.take(i - start) =~= digits);
    Some(value)
}

/// The number that the text reads as, if a `u32` holds it.
pub fn parse_u32(s: &str) -> (r: Option<u32>)
    ensures
        r matches Some(n) ==> number(s@, u32::MAX as nat) == Some(n as nat),
        r is None ==> number(s@, u32::MAX as nat) is None,
{
    match parse_number(s, u32::MAX as u64) {
        Some(n) => Some(n as u32),
        None => None,
    }
}

/// The number that the text reads as, if a `u64` holds it.
pub fn parse_u64(s: &str) -> (r: Option<u64>)
    ensures
        r matches Some(n) ==> number(s@, u64::MAX as nat) == Some(n as nat),
        r is None ==> number(s@, u64::MAX as nat) is None,
{
    parse_number(s, u64::MAX)
}

/// The number in decimal.
pub fn decimal_text(n: u64) -> (s: String)
    ensures
        s@ == decimal(n as nat),
    decreases n,
{
    let mut s = if n < 10 {
        String::new()
    } else {
        decimal_text(n / 10)
    };
    let digit: u8 = (n % 10) as u8;
    s.push((48u8 + digit) as char);
    assert(s@ =~= decimal(n as nat));
    s
}

/// A number that is written in decimal reads back as itself.
pub proof fn law_decimal_reads_back(n: nat, max: nat)
    requires
        n <= max,
    ensures
        number(decimal(n), max) == Some(n),
{
    lemma_decimal(n);
    assert(is_digit(decimal(n)[0]));
}

proof fn lemma_decimal(n: nat)
    ensures
        decimal(n).len() > 0,
        forall|i: int| 0 <= i < decimal(n).len() ==> is_digit(#[trigger] decimal(n)[i]),
        digits_value(decimal(n)) == n,
    decreases n,
{
    let last = digit_char(n % 10);
    assert(is_digit(last) && digit_value(last) == n % 10);
    if n < 10 {
        assert(decimal(n).drop_last() == Seq::<char>::empty());
        assert(digits_value(Seq::<char>::empty()) == 0);
    } else {
        lemma_decimal(n / 10);
        assert(decimal(n).drop_last() == decimal(n / 10));
    }
}

} // verus!
