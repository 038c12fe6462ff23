//! String literals in the texts of the virtual machine.
use vstd::prelude::*;
use vstd::utf8::encode_utf8;

use crate::text::chars_of;

verus! {

/// The number of bytes that a string literal may have.
pub const MAX_STRING_BYTES: usize = 255;

/// The number of bytes that the bytecode of a program may have.
pub const MAX_PROGRAM_BYTES: usize = 2_048_000;

/// The number of bytes that the character with that code has.
pub open spec fn code_bytes(code: int) -> int {
    if code < 0x80 {
        1
    } else if code < 0x800 {
        2
    } else if code < 0x10000 {
        3
    } else {
        4
    }
}

/// The characters that an escape can be followed by in place of a name: they are dropped.
pub open spec fn is_blank(c: char) -> bool {
    c == ' ' || c == '\t' || c == '\r' || c == '\n'
}

/// The characters that name what an escape stands for.
pub open spec fn is_escape_name(c: char) -> bool {
    c == 'n' || c == 'r' || c == 't' || c == 'b' || c == 'f' || c == '\\' || c == '/' || c == '"'
}

/// The number that a hexadecimal digit stands for.
pub open spec fn hex_digit(c: char) -> Option<int> {
    let n = c as int;
    if '0' <= c <= '9' {
        Some(n - '0' as int)
    } else if 'a' <= c <= 'f' {
        Some(n - 'a' as int + 10)
    } else if 'A' <= c <= 'F' {
        Some(n - 'A' as int + 10)
    } else {
        None
    }
}

/// The hexadecimal digits from index `i` on, `left` of them at most: where they end, and the number
/// that they stand for behind the digits for `value`.
pub open spec fn hex_run(s: Seq<char>, i: int, left: nat, value: int) -> (int, int)
    decreases left,
{
    if left == 0 || i >= s.len() {
        (i, value)
    } else {
        match hex_digit(s[i]) {
            None => (i, value),
            Some(d) => hex_run(s, i + 1, (left - 1) as nat, value * 16 + d),
        }
    }
}

/// The first index, from `i` on, that holds no blank.
pub open spec fn blanks_end(s: Seq<char>, i: int) -> int
    decreases s.len() - i,
{
    if i < s.len() && is_blank(s[i]) {
        blanks_end(s, i + 1)
    } else {
        i
    }
}

/// An escape whose name is at index `i`: where it ends, and the number of bytes that it stands for.
/// There is none if the text does not have the form of an escape.
pub open spec fn escape_at(s: Seq<char>, i: int) -> Option<(int, int)> {
    if i >= s.len() {
        None
    } else if s[i] == 'u' {
        let (end, code) = hex_run(s, i + 2, 6, 0);
        if i + 1 < s.len() && s[i + 1] == '{' && end > i + 2 && end < s.len() && s[end] == '}' && (code
            < 0xd800 || 0xe000 <= code <= 0x10ffff) {
            Some((end + 1, code_bytes(code)))
        } else {
            None
        }
    } else if is_escape_name(s[i]) {
        Some((i + 1, 1))
    } else if is_blank(s[i]) {
        Some((blanks_end(s, i), 0))
    } else {
        None
    }
}

/// The rest of a string literal from index `i` on: the index behind its closing quote, and the number
/// of bytes that it stands for. There is none if the literal is not closed.
pub open spec fn literal_at(s: Seq<char>, i: int) -> Option<(int, int)>
    decreases s.len() - i,
{
    if i < 0 || i >= s.len() {
        None
    } else if s[i] == '"' {
        Some((i + 1, 0))
    } else {
        let unit = if s[i] == '\\' {
            escape_at(s, i + 1)
        } else {
            Some((i + 1, code_bytes(s[i] as u32 as int)))
        };
        match unit {
            None => None,
            Some((next, size)) => {
                proof {
                    lemma_escape_goes_on(s, i + 1);
                }
                match literal_at(s, next) {
                    None => None,
                    Some((end, rest)) => Some((end, size + rest)),
                }
            },
        }
    }
}

/// The index behind the line comment whose text starts at index `start`; a backslash before the end of
/// a line joins the next line to it.
pub open spec fn line_comment_end(s: Seq<char>, start: int, i: int) -> int
    decreases s.len() - i,
{
    if i >= s.len() {
        i
    } else if s[i] == '\n' && !(i > start && s[i - 1] == '\\') {
        i + 1
    } else {
        line_comment_end(s, start, i + 1)
    }
}

/// The index behind the block comment whose text goes on at index `i`, if it is closed.
pub open spec fn block_comment_end(s: Seq<char>, i: int) -> Option<int>
    decreases s.len() - i,
{
    if i + 1 >= s.len() {
        None
    } else if s[i] == '*' && s[i + 1] == '/' {
        Some(i + 2)
    } else {
        block_comment_end(s, i + 1)
    }
}

/// Whether two characters stand at index `i`.
pub open spec fn pair_at(s: Seq<char>, i: int, a: char, b: char) -> bool {
    i + 1 < s.len() && s[i] == a && s[i + 1] == b
}

/// Whether a text has, from index `i` on and outside its comments, a string literal that is too long.
/// Behind a literal or a comment that is not closed there are no more of them.
pub open spec fn overlong_from(s: Seq<char>, i: int) -> bool
    decreases s.len() - i,
{
    if i < 0 || i >= s.len() {
        false
    } else if s[i] == '"' {
        match literal_at(s, i + 1) {
            None => false,
            Some((end, size)) => {
                proof {
                    lemma_literal_goes_on(s, i + 1);
                }
                size > MAX_STRING_BYTES || overlong_from(s, end)
            },
        }
    } else if pair_at(s, i, '/', '/') {
        proof {
            lemma_line_comment_goes_on(s, i + 2, i + 2);
        }
        overlong_from(s, line_comment_end(s, i + 2, i + 2))
    } else if pair_at(s, i, '/', '*') {
        match block_comment_end(s, i + 2) {
            None => false,
            Some(end) => {
                proof {
                    lemma_block_comment_goes_on(s, i + 2);
                }
                overlong_from(s, end)
            },
        }
    } else {
        overlong_from(s, i + 1)
    }
}

/// Whether every string literal of a text, outside its comments, is short enough.
pub open spec fn literals_fit(s: Seq<char>) -> bool {
    !overlong_from(s, 0)
}

/// Whether the parser of programs can take a bytecode text: it turns texts that are too long down
/// unread, and in others every string literal has to be short enough.
pub open spec fn is_readable_program(bytecode: Seq<char>) -> bool {
    encode_utf8(bytecode).len() > MAX_PROGRAM_BYTES || literals_fit(bytecode)
}

/// Digits end behind where they start.
pub proof fn lemma_hex_run(s: Seq<char>, i: int, left: nat, value: int)
    requires
        0 <= i <= s.len(),
    ensures
        i <= hex_run(s, i, left, value).0 <= s.len(),
    decreases left,
{
    if left > 0 && i < s.len() && hex_digit(s[i]) is Some {
        lemma_hex_run(s, i + 1, (left - 1) as nat, value * 16 + hex_digit(s[i])->0);
    }
}

/// Blanks end behind where they start.
pub proof fn lemma_blanks_end(s: Seq<char>, i: int)
    requires
        0 <= i <= s.len(),
    ensures
        i <= blanks_end(s, i) <= s.len(),
        i < s.len() && is_blank(s[i]) ==> i < blanks_end(s, i),
    decreases s.len() - i,
{
    if i < s.len() && is_blank(s[i]) {
        lemma_blanks_end(s, i + 1);
    }
}

/// An escape ends behind its name.
pub proof fn lemma_escape_goes_on(s: Seq<char>, i: int)
    ensures
        0 <= i && escape_at(s, i) is Some ==> {
            let (next, size) = escape_at(s, i)->0;
            i < next <= s.len() && 0 <= size <= 4
        },
{
    if 0 <= i < s.len() {
        if i + 2 <= s.len() {
            lemma_hex_run(s, i + 2, 6, 0);
        }
        lemma_blanks_end(s, i);
    }
}

/// A literal ends behind where it goes on.
pub proof fn lemma_literal_goes_on(s: Seq<char>, i: int)
    ensures
        0 <= i && literal_at(s, i) is Some ==> {
            let (end, size) = literal_at(s, i)->0;
            i < end <= s.len() && 0 <= size
        },
    decreases s.len() - i,
{
    if 0 <= i < s.len() && s[i] != '"' {
        lemma_escape_goes_on(s, i + 1);
        if s[i] == '\\' {
            if let Some((next, size)) = escape_at(s, i + 1) {
                lemma_literal_goes_on(s, next);
            }
        } else {
            lemma_literal_goes_on(s, i + 1);
        }
    }
}

/// A line comment ends behind where it goes on.
pub proof fn lemma_line_comment_goes_on(s: Seq<char>, start: int, i: int)
    ensures
        line_comment_end(s, start, i) >= i,
        i <= s.len() ==> line_comment_end(s, start, i) <= s.len(),
    decreases s.len() - i,
{
    if i < s.len() && !(s[i] == '\n' && !(i > start && s[i - 1] == '\\')) {
        lemma_line_comment_goes_on(s, start, i + 1);
    }
}

/// A block comment ends behind where it goes on.
pub proof fn lemma_block_comment_goes_on(s: Seq<char>, i: int)
    ensures
        block_comment_end(s, i) is Some ==> i < block_comment_end(s, i)->0 <= s.len(),
    decreases s.len() - i,
{
    if i + 1 < s.len() && !(s[i] == '*' && s[i + 1] == '/') {
        lemma_block_comment_goes_on(s, i + 1);
    }
}

fn bytes_of(code: u32) -> (n: usize)
    ensures
        n == code_bytes(code as int),
{
    if code < 0x80 {
        1
    } else if code < 0x800 {
        2
    } else if code < 0x10000 {
        3
    } else {
        4
    }
}

fn blank(c: char) -> (r: bool)
    ensures
        r == is_blank(c),
{
    c == ' ' || c == '\t' || c == '\r' || c == '\n'
}

fn hex_value(c: char) -> (d: Option<u32>)
    ensures
        match d {
            Some(n) => hex_digit(c) == Some(n as int) && n < 16,
            None => hex_digit(c) is None,
        },
{
    let n: u32 = c as u32;
    if '0' <= c && c <= '9' {
        Some(n - 48)
    } else if 'a' <= c && c <= 'f' {
        Some(n - 87)
    } else if 'A' <= c && c <= 'F' {
        Some(n - 55)
    } else {
        None
    }
}

/// The code that stands in the braces of an escape, and where its digits end.
fn read_hex(chars: &Vec<char>, from: usize) -> (run: (usize, u32))
    requires
        from <= chars.len(),
    ensures
        (run.0 as int, run.1 as int) == hex_run(chars@, from as int, 6, 0),
        from <= run.0 <= chars.len(),
{
    let mut i: usize = from;
    let mut left: u32 = 6;
    let mut value: u32 = 0;
    let mut bound: u32 = 1;
    while left > 0 && i < chars.len()
        invariant
            from <= i <= chars.len(),
            left <= 6,
            value < bound,
            bound == (if left == 6 {
                1int
            } else if left == 5 {
                0x10
            } else if left == 4 {
                0x100
            } else if left == 3 {
                0x1000
            } else if left == 2 {
                0x10000
            } else if left == 1 {
                0x100000
            } else {
                0x1000000
            }),
            hex_run(chars@, from as int, 6, 0) == hex_run(
                chars@,
                i as int,
                left as nat,
                value as int,
            ),
        decreases left,
    {
        match hex_value(chars[i]) {
            None => {
                return (i, value);
            },
            Some(d) => {
                value = value * 16 + d;
                bound = bound * 16;
                left -= 1;
                i += 1;
            },
        }
    }
    (i, value)
}

/// An escape whose name is at the index: where it ends, and the number of bytes that it stands for.
fn read_escape(chars: &Vec<char>, i: usize) -> (escape: Option<(usize, usize)>)
    ensures
        match escape {
            Some((next, size)) => escape_at(chars@, i as int) == Some((next as int, size as int)) && i
                < next <= chars.len() && size <= 4,
            None => escape_at(chars@, i as int) is None,
        },
{
    if i >= chars.len() {
        return None;
    }
    proof {
        lemma_escape_goes_on(chars@, i as int);
    }
    let c = chars[i];
    if c == 'u' {
        if chars.len() - i < 2 || chars[i + 1] != '{' {
            return None;
        }
        let (end, code) = read_hex(chars, i + 2);
        if end > i + 2 && end < chars.len() && chars[end] == '}' && (code < 0xd800 || (0xe000
            <= code && code <= 0x10ffff)) {
            Some((end + 1, bytes_of(code)))
        } else {
            None
        }
    } else if c == 'n' || c == 'r' || c == 't' || c == 'b' || c == 'f' || c == '\\' || c == '/' || c
        == '"' {
        Some((i + 1, 1))
    } else if blank(c) {
        let mut end: usize = i;
        while end < chars.len() && blank(chars[end])
            invariant
                i <= end <= chars.len(),
                blanks_end(chars@, i as int) == blanks_end(chars@, end as int),
            decreases chars.len() - end,
        {
            end += 1;
        }
        Some((end, 0))
    } else {
        None
    }
}

/// The rest of a string literal: the index behind its closing quote, and whether it is too long.
fn read_literal(chars: &Vec<char>, from: usize) -> (literal: Option<(usize, bool)>)
    ensures
        match (literal, literal_at(chars@, from as int)) {
            (Some((end, long)), Some((e, size))) => end == e && long == (size > MAX_STRING_BYTES)
                && from < end <= chars.len(),
            (None, None) => true,
            _ => false,
        },
{
    proof {
        lemma_literal_goes_on(chars@, from as int);
    }
    let ghost s = chars@;
    let ghost whole = literal_at(s, from as int);
    let ghost mut total: int = 0;
    let mut size: usize = 0;
    let mut i: usize = from;
    while i < chars.len()
        invariant
            s == chars@,
            whole == literal_at(s, from as int),
            from <= i,
            from < i ==> i <= chars.len(),
            0 <= total,
            size == (if total <= MAX_STRING_BYTES {
                total
            } else {
                256
            }),
            whole == (match literal_at(s, i as int) {
                None => None::<(int, int)>,
                Some((end, rest)) => Some((end, total + rest)),
            }),
            match whole {
                Some((end, _)) => from < end <= s.len(),
                None => true,
            },
        decreases chars.len() - i,
    {
        let c = chars[i];
        if c == '"' {
            return Some((i + 1, size > MAX_STRING_BYTES));
        }
        let unit: Option<(usize, usize)> = if c == '\\' {
            read_escape(chars, i + 1)
        } else {
            Some((i + 1, bytes_of(c as u32)))
        };
        match unit {
            None => {
                return None;
            },
            Some((next, bytes)) => {
                proof {
                    total = total + bytes;
                    lemma_literal_goes_on(s, next as int);
                }
                size = if size + bytes <= MAX_STRING_BYTES {
                    size + bytes
                } else {
                    256
                };
                i = next;
            },
        }
    }
    None
}

/// The index behind the line comment whose text starts at the index.
fn skip_line_comment(chars: &Vec<char>, start: usize) -> (end: usize)
    requires
        start <= chars.len(),
    ensures
        end == line_comment_end(chars@, start as int, start as int),
        start <= end <= chars.len(),
{
    let mut i: usize = start;
    while i < chars.len()
        invariant
            start <= i <= chars.len(),
            line_comment_end(chars@, start as int, start as int) == line_comment_end(
                chars@,
                start as int,
                i as int,
            ),
        decreases chars.len() - i,
    {
        if chars[i] == '\n' && !(i > start && chars[i - 1] == '\\') {
            return i + 1;
        }
        i += 1;
    }
    i
}

/// The index behind the block comment whose text starts at the index, if it is closed.
fn skip_block_comment(chars: &Vec<char>, start: usize) -> (end: Option<usize>)
    requires
        start <= chars.len(),
    ensures
        match end {
            Some(e) => block_comment_end(chars@, start as int) == Some(e as int) && start < e
                <= chars.len(),
            None => block_comment_end(chars@, start as int) is None,
        },
{
    let mut i: usize = start;
    while i < chars.len() && chars.len() - i >= 2
        invariant
            start <= i <= chars.len(),
            block_comment_end(chars@, start as int) == block_comment_end(chars@, i as int),
        decreases chars.len() - i,
    {
        if chars[i] == '*' && chars[i + 1] == '/' {
            return Some(i + 2);
        }
        i += 1;
    }
    None
}

/// Whether every string literal of a text, outside its comments, is short enough.
pub fn has_fitting_literals(s: &str) -> (fit: bool)
    ensures
        fit == literals_fit(s@),
{
    let chars = chars_of(s);
    let mut i: usize = 0;
    while i < chars.len()
        invariant
            chars@ == s@,
            i <= chars.len(),
            overlong_from(s@, 0) == overlong_from(s@, i as int),
        decreases chars.len() - i,
    {
        if chars[i] == '"' {
            match read_literal(&chars, i + 1) {
                None => {
                    return true;
                },
                Some((end, long)) => {
                    if long {
                        return false;
                    }
                    i = end;
                },
            }
        } else if chars[i] == '/' && chars.len() - i >= 2 && chars[i + 1] == '/' {
            i = skip_line_comment(&chars, i + 2);
        } else if chars[i] == '/' && chars.len() - i >= 2 && chars[i + 1] == '*' {
            match skip_block_comment(&chars, i + 2) {
                None => {
                    return true;
                },
                Some(end) => {
                    i = end;
                },
            }
        } else {
            i += 1;
        }
    }
    true
}

/// Whether the parser of programs can take a bytecode text.
pub fn can_read_program(bytecode: &str) -> (readable: bool)
    ensures
        readable == is_readable_program(bytecode@),
{
    bytecode.as_bytes().len() > MAX_PROGRAM_BYTES || has_fitting_literals(bytecode)
}

} // verus!
