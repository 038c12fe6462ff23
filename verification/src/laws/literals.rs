//! Which texts the parsers of the virtual machine can take.
use vstd::prelude::*;
use vstd::utf8::encode_utf8;

use crate::literals::{
    block_comment_end, code_bytes, escape_at, hex_run, is_readable_program, lemma_block_comment_goes_on,
    lemma_line_comment_goes_on, line_comment_end, literal_at, literals_fit, overlong_from, pair_at,
};

verus! {

proof fn lemma_no_quotes_from(s: Seq<char>, i: int)
    requires
        0 <= i,
        forall|j: int| i <= j < s.len() ==> #[trigger] s[j] != '"',
    ensures
        !overlong_from(s, i),
    decreases s.len() - i,
{
    if i < s.len() {
        if pair_at(s, i, '/', '/') {
            lemma_line_comment_goes_on(s, i + 2, i + 2);
            lemma_no_quotes_from(s, line_comment_end(s, i + 2, i + 2));
        } else if pair_at(s, i, '/', '*') {
            lemma_block_comment_goes_on(s, i + 2);
            if let Some(end) = block_comment_end(s, i + 2) {
                lemma_no_quotes_from(s, end);
            }
        } else {
            lemma_no_quotes_from(s, i + 1);
        }
    }
}

/// A text without string literals can be taken.
pub proof fn law_text_without_quotes_fits(s: Seq<char>)
    requires
        !s.contains('"'),
    ensures
        literals_fit(s),
        is_readable_program(s),
{
    assert forall|j: int| 0 <= j < s.len() implies #[trigger] s[j] != '"' by {
        assert(s.contains(s[j]));
    }
    lemma_no_quotes_from(s, 0);
}

proof fn lemma_plain_before(s: Seq<char>, i: int, k: int)
    requires
        0 <= i <= k <= s.len(),
        forall|j: int| i <= j < k ==> #[trigger] s[j] != '"' && s[j] != '/',
    ensures
        overlong_from(s, i) == overlong_from(s, k),
    decreases k - i,
{
    if i < k {
        lemma_plain_before(s, i + 1, k);
    }
}

proof fn lemma_bytes(c: char)
    ensures
        code_bytes(c as u32 as int) == vstd::utf8::encode_scalar(c as u32).len(),
{
}

proof fn lemma_plain_literal(s: Seq<char>, i: int, e: int)
    requires
        0 <= i <= e < s.len(),
        s[e] == '"',
        forall|j: int| i <= j < e ==> #[trigger] s[j] != '"' && s[j] != '\\',
    ensures
        literal_at(s, i) == Some((e + 1, encode_utf8(s.subrange(i, e)).len() as int)),
    decreases e - i,
{
    let body = s.subrange(i, e);
    if i < e {
        lemma_plain_literal(s, i + 1, e);
        lemma_bytes(s[i]);
        assert(body.drop_first() =~= s.subrange(i + 1, e));
        assert(body[0] == s[i]);
    } else {
        assert(body.len() == 0);
    }
}

/// A text with one plain string literal can be taken exactly if the literal has no more than two
/// hundred and fifty-five bytes.
pub proof fn law_long_literal_does_not_fit(before: Seq<char>, body: Seq<char>, behind: Seq<char>)
    requires
        !before.contains('"'),
        !before.contains('/'),
        !body.contains('"'),
        !body.contains('\\'),
        !behind.contains('"'),
    ensures
        literals_fit(before.push('"') + body.push('"') + behind) <==> encode_utf8(body).len() <= 255,
{
    let s = before.push('"') + body.push('"') + behind;
    let k = before.len() as int;
    let e = k + 1 + body.len();
    assert forall|j: int| 0 <= j < k implies #[trigger] s[j] != '"' && s[j] != '/' by {
        assert(s[j] == before[j]);
        assert(before.contains(before[j]));
    }
    lemma_plain_before(s, 0, k);
    assert(s[k] == '"');
    assert(s[e] == '"');
    assert forall|j: int| k + 1 <= j < e implies #[trigger] s[j] != '"' && s[j] != '\\' by {
        assert(s[j] == body[j - k - 1]);
        assert(body.contains(body[j - k - 1]));
    }
    lemma_plain_literal(s, k + 1, e);
    assert(s.subrange(k + 1, e) =~= body);
    assert forall|j: int| e + 1 <= j < s.len() implies #[trigger] s[j] != '"' by {
        assert(s[j] == behind[j - e - 1]);
        assert(behind.contains(behind[j - e - 1]));
    }
    lemma_no_quotes_from(s, e + 1);
}

/// An escape that is named by a letter, a slash, a backslash or a quote stands for one byte.
pub proof fn law_named_escape_is_one_byte(s: Seq<char>, i: int)
    requires
        0 <= i,
        i + 1 < s.len(),
        s[i] == '\\',
        s[i + 1] == 'n' || s[i + 1] == 'r' || s[i + 1] == 't' || s[i + 1] == 'b' || s[i + 1] == 'f'
            || s[i + 1] == '\\' || s[i + 1] == '/' || s[i + 1] == '"',
    ensures
        match literal_at(s, i + 2) {
            Some((end, size)) => literal_at(s, i) == Some((end, 1 + size)),
            None => literal_at(s, i) is None,
        },
{
    assert(escape_at(s, i + 1) == Some((i + 2, 1int)));
}

proof fn lemma_one_line(s: Seq<char>, start: int, i: int)
    requires
        0 <= i <= s.len(),
        forall|j: int| i <= j < s.len() ==> #[trigger] s[j] != '\n',
    ensures
        line_comment_end(s, start, i) == s.len(),
    decreases s.len() - i,
{
    if i < s.len() {
        lemma_one_line(s, start, i + 1);
    }
}

/// What stands in a line comment does not count.
pub proof fn law_line_comments_do_not_count(text: Seq<char>)
    requires
        !text.contains('\n'),
    ensures
        literals_fit(seq!['/', '/'] + text),
{
    let s = seq!['/', '/'] + text;
    assert forall|j: int| 2 <= j < s.len() implies #[trigger] s[j] != '\n' by {
        assert(s[j] == text[j - 2]);
        assert(text.contains(text[j - 2]));
    }
    lemma_one_line(s, 2, 2);
    assert(pair_at(s, 0, '/', '/'));
    lemma_no_quotes_from(s, s.len() as int);
}

proof fn lemma_block_end(s: Seq<char>, i: int, e: int)
    requires
        0 <= i <= e,
        e + 2 == s.len(),
        s[e] == '*' && s[e + 1] == '/',
        forall|j: int| i <= j < e ==> !(#[trigger] s[j] == '*' && s[j + 1] == '/'),
    ensures
        block_comment_end(s, i) == Some(e + 2),
    decreases e - i,
{
    if i < e {
        assert(!(s[i] == '*' && s[i + 1] == '/'));
        lemma_block_end(s, i + 1, e);
    }
}

/// What stands in a block comment does not count.
pub proof fn law_block_comments_do_not_count(text: Seq<char>)
    requires
        forall|j: int| 0 <= j < text.len() ==> !(#[trigger] text[j] == '*'),
    ensures
        literals_fit(seq!['/', '*'] + text + seq!['*', '/']),
{
    let s = seq!['/', '*'] + text + seq!['*', '/'];
    let e = 2 + text.len() as int;
    assert forall|j: int| 2 <= j < e implies !(#[trigger] s[j] == '*' && s[j + 1] == '/') by {
        assert(s[j] == text[j - 2]);
    }
    lemma_block_end(s, 2, e);
    assert(pair_at(s, 0, '/', '*'));
    assert(!pair_at(s, 0, '/', '/'));
    lemma_no_quotes_from(s, s.len() as int);
}

/// A program whose text is larger than two million and forty-eight thousand bytes is turned down
/// unread, so any literal may stand in it; in any other one the literals have to fit.
pub proof fn law_huge_programs_are_not_read(bytecode: Seq<char>)
    ensures
        encode_utf8(bytecode).len() > 2_048_000 ==> is_readable_program(bytecode),
        encode_utf8(bytecode).len() <= 2_048_000 ==> (is_readable_program(bytecode)
            <==> literals_fit(bytecode)),
{
}

/// Whether a character is a hexadecimal digit of that value.
pub open spec fn is_hex(c: char, value: int) -> bool {
    ||| '0' <= c <= '9' && value == c as int - '0' as int
    ||| 'a' <= c <= 'f' && value == c as int - 'a' as int + 10
    ||| 'A' <= c <= 'F' && value == c as int - 'A' as int + 10
}

/// Whether the values are those of the digits.
pub open spec fn are_hex(digits: Seq<char>, values: Seq<int>) -> bool {
    &&& digits.len() == values.len()
    &&& forall|j: int| 0 <= j < digits.len() ==> is_hex(#[trigger] digits[j], values[j])
}

/// The number that hexadecimal digits with these values stand for.
pub open spec fn hex_number(values: Seq<int>) -> int
    decreases values.len(),
{
    if values.len() == 0 {
        0
    } else {
        hex_number(values.drop_last()) * 16 + values.last()
    }
}

proof fn lemma_hex_digits(
    s: Seq<char>,
    start: int,
    values: Seq<int>,
    k: int,
    left: nat,
)
    requires
        0 <= start,
        0 <= k <= values.len(),
        start + values.len() < s.len(),
        are_hex(s.subrange(start, start + values.len()), values),
        s[start + values.len()] == '}',
        values.len() - k <= left,
    ensures
        hex_run(s, start + k, left, hex_number(values.take(k))) == (
            start + values.len(),
            hex_number(values),
        ),
    decreases values.len() - k,
{
    if k < values.len() {
        let digits = s.subrange(start, start + values.len());
        assert(digits[k] == s[start + k]);
        assert(is_hex(digits[k], values[k]));
        assert(values.take(k + 1).drop_last() =~= values.take(k));
        lemma_hex_digits(s, start, values, k + 1, (left - 1) as nat);
    } else {
        assert(values.take(k) =~= values);
    }
}

/// An escape with the code of a character in braces, in up to six hexadecimal digits, stands for as
/// many bytes as the character has.
pub proof fn law_unicode_escape(s: Seq<char>, i: int, values: Seq<int>)
    requires
        0 <= i,
        1 <= values.len() <= 6,
        i + 3 + values.len() < s.len(),
        s[i] == '\\' && s[i + 1] == 'u' && s[i + 2] == '{',
        are_hex(s.subrange(i + 3, i + 3 + values.len()), values),
        s[i + 3 + values.len()] == '}',
        0 <= hex_number(values) < 0xd800 || 0xe000 <= hex_number(values) <= 0x10ffff,
    ensures
        ({
            let size = vstd::utf8::encode_scalar(hex_number(values) as u32).len();
            match literal_at(s, i + 4 + values.len()) {
                Some((end, rest)) => literal_at(s, i) == Some((end, size + rest)),
                None => literal_at(s, i) is None,
            }
        }),
{
    assert(values.take(0) =~= Seq::<int>::empty());
    lemma_hex_digits(s, i + 3, values, 0, 6);
    assert(escape_at(s, i + 1) == Some(
        (i + 4 + values.len(), code_bytes(hex_number(values))),
    ));
}

} // verus!
