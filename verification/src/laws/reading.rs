//! What reading a text comes to.
use vstd::prelude::*;

use crate::paths::{last_component, last_slash};
use crate::text::{
    at, decimal, digits_value, first_match, is_digit, is_space, joined, lemma_prefix_len_is,
    line_list, number, parted, pieces, space_here, trim_end, trim_start, trimmed, unsigned,
    word_list,
};

verus! {

/// A text is cut at the first separator: what stands before it is the first piece, and what stands
/// behind it is cut further.
pub proof fn law_cut_at_the_first_separator(before: Seq<char>, sep: char, behind: Seq<char>, n: nat)
    requires
        !before.contains(sep),
        n >= 2,
    ensures
        pieces(before.push(sep) + behind, sep, n) == seq![before] + pieces(
            behind,
            sep,
            (n - 1) as nat,
        ),
{
    let s = before.push(sep) + behind;
    let k = before.len() as int;
    assert forall|i: int| 0 <= i < k implies !at(sep)(#[trigger] s[i]) by {
        assert(s[i] == before[i]);
        assert(before.contains(before[i]));
    }
    assert(s[k] == sep);
    lemma_prefix_len_is(s, at(sep), k);
    assert(s.take(k) =~= before);
    assert(s.skip(k + 1) =~= behind);
}

/// A text without a separator is one piece.
pub proof fn law_nothing_to_cut(s: Seq<char>, sep: char, n: nat)
    requires
        !s.contains(sep),
    ensures
        pieces(s, sep, n) == seq![s],
{
    assert forall|i: int| 0 <= i < s.len() implies !at(sep)(#[trigger] s[i]) by {
        assert(s.contains(s[i]));
    }
    lemma_prefix_len_is(s, at(sep), s.len() as int);
}

/// Whether the pattern stands in the text at index `i`.
pub open spec fn stands_at(s: Seq<char>, pattern: Seq<char>, i: int) -> bool {
    &&& 0 <= i
    &&& i + pattern.len() <= s.len()
    &&& forall|j: int| 0 <= j < pattern.len() ==> #[trigger] pattern[j] == s[i + j]
}

proof fn lemma_stands_at_start(s: Seq<char>, pattern: Seq<char>)
    ensures
        pattern.is_prefix_of(s) <==> stands_at(s, pattern, 0),
{
    if pattern.is_prefix_of(s) {
        assert forall|j: int| 0 <= j < pattern.len() implies #[trigger] pattern[j] == s[0 + j] by {
            assert(s.subrange(0, pattern.len() as int)[j] == s[j]);
        }
    }
    if stands_at(s, pattern, 0) {
        assert(pattern =~= s.subrange(0, pattern.len() as int)) by {
            assert forall|j: int| 0 <= j < pattern.len() implies #[trigger] pattern[j] == s.subrange(
                0,
                pattern.len() as int,
            )[j] by {
                assert(pattern[j] == s[0 + j]);
            }
        }
    }
}

/// A pattern is found where it first stands in the text, and not at all if it stands nowhere.
pub proof fn law_first_match_is_first(s: Seq<char>, pattern: Seq<char>)
    requires
        pattern.len() > 0,
    ensures
        match first_match(s, pattern) {
            Some(i) => stands_at(s, pattern, i) && forall|j: int|
                0 <= j < i ==> !#[trigger] stands_at(s, pattern, j),
            None => forall|j: int| !#[trigger] stands_at(s, pattern, j),
        },
    decreases s.len(),
{
    lemma_stands_at_start(s, pattern);
    if s.len() > 0 && !pattern.is_prefix_of(s) {
        let rest = s.skip(1);
        law_first_match_is_first(rest, pattern);
        assert forall|j: int| 1 <= j implies (#[trigger] stands_at(s, pattern, j) <==> stands_at(
            rest,
            pattern,
            j - 1,
        )) by {
            if stands_at(s, pattern, j) {
                assert forall|h: int| 0 <= h < pattern.len() implies #[trigger] pattern[h] == rest[j
                    - 1 + h] by {
                    assert(pattern[h] == s[j + h]);
                }
            }
            if stands_at(rest, pattern, j - 1) {
                assert forall|h: int| 0 <= h < pattern.len() implies #[trigger] pattern[h] == s[j
                    + h] by {
                    assert(pattern[h] == rest[j - 1 + h]);
                }
            }
        }
        if let Some(i) = first_match(s, pattern) {
            assert(stands_at(rest, pattern, i - 1));
            assert(stands_at(s, pattern, i));
            assert forall|j: int| 0 <= j < i implies !#[trigger] stands_at(s, pattern, j) by {
                if j > 0 {
                    assert(!stands_at(rest, pattern, j - 1));
                }
            }
        } else {
            assert forall|j: int| !#[trigger] stands_at(s, pattern, j) by {
                if j > 0 {
                    assert(!stands_at(rest, pattern, j - 1));
                }
            }
        }
    }
}

/// A text is parted at the first place where the pattern stands, and not if it stands nowhere.
pub proof fn law_parted_at_the_first_match(s: Seq<char>, pattern: Seq<char>, i: int)
    requires
        pattern.len() > 0,
    ensures
        stands_at(s, pattern, i) && (forall|j: int| 0 <= j < i ==> !#[trigger] stands_at(s, pattern, j))
            ==> parted(s, pattern) == Some((s.take(i), s.skip(i + pattern.len()))),
        (forall|j: int| !#[trigger] stands_at(s, pattern, j)) ==> parted(s, pattern) is None,
{
    law_first_match_is_first(s, pattern);
    if let Some(j) = first_match(s, pattern) {
        assert(stands_at(s, pattern, j));
    }
}

/// Whether a text is nothing but white space.
pub open spec fn is_blank(s: Seq<char>) -> bool {
    forall|i: int| 0 <= i < s.len() ==> is_space(#[trigger] s[i])
}

/// Whether a text has no white space.
pub open spec fn is_solid(s: Seq<char>) -> bool {
    forall|i: int| 0 <= i < s.len() ==> !is_space(#[trigger] s[i])
}

proof fn lemma_trim_start(before: Seq<char>, rest: Seq<char>)
    requires
        is_blank(before),
        rest.len() > 0 ==> !is_space(rest[0]),
    ensures
        trim_start(before + rest) == rest,
    decreases before.len(),
{
    if before.len() == 0 {
        assert(before + rest =~= rest);
    } else {
        let s = before + rest;
        assert(s[0] == before[0]);
        assert(s.skip(1) =~= before.skip(1) + rest);
        assert forall|i: int| 0 <= i < before.skip(1).len() implies is_space(
            #[trigger] before.skip(1)[i],
        ) by {
            assert(before.skip(1)[i] == before[i + 1]);
        }
        lemma_trim_start(before.skip(1), rest);
    }
}

proof fn lemma_trim_end(rest: Seq<char>, behind: Seq<char>)
    requires
        is_blank(behind),
        rest.len() > 0 ==> !is_space(rest.last()),
    ensures
        trim_end(rest + behind) == rest,
    decreases behind.len(),
{
    if behind.len() == 0 {
        assert(rest + behind =~= rest);
    } else {
        let s = rest + behind;
        assert(s.last() == behind.last());
        assert(is_space(behind[behind.len() - 1]));
        assert(s.drop_last() =~= rest + behind.drop_last());
        lemma_trim_end(rest, behind.drop_last());
    }
}

/// Trimming takes away the white space around a text, and nothing else.
pub proof fn law_trimming(before: Seq<char>, text: Seq<char>, behind: Seq<char>)
    requires
        is_blank(before),
        is_blank(behind),
        text.len() > 0 ==> !is_space(text[0]) && !is_space(text[text.len() - 1]),
    ensures
        trimmed(before + text + behind) == text,
{
    if text.len() > 0 {
        assert(before + text + behind =~= before + (text + behind));
        lemma_trim_start(before, text + behind);
        lemma_trim_end(text, behind);
    } else {
        let s = before + behind;
        assert(before + text + behind =~= s);
        assert forall|i: int| 0 <= i < s.len() implies is_space(#[trigger] s[i]) by {}
        assert(s + text =~= s);
        lemma_trim_start(s, text);
    }
}

/// A line's first word is what stands before its first white space, leading white space aside; the
/// other words are those of the rest.
pub proof fn law_first_word(before: Seq<char>, word: Seq<char>, behind: Seq<char>)
    requires
        is_blank(before),
        word.len() > 0,
        is_solid(word),
        behind.len() > 0 ==> is_space(behind[0]),
    ensures
        word_list(before + word + behind) == seq![word] + word_list(behind),
    decreases before.len(),
{
    let s = before + word + behind;
    if before.len() > 0 {
        assert(s[0] == before[0]);
        assert(s.skip(1) =~= before.skip(1) + word + behind);
        assert forall|i: int| 0 <= i < before.skip(1).len() implies is_space(
            #[trigger] before.skip(1)[i],
        ) by {
            assert(before.skip(1)[i] == before[i + 1]);
        }
        law_first_word(before.skip(1), word, behind);
    } else {
        let n = word.len() as int;
        assert(s[0] == word[0]);
        assert forall|i: int| 0 <= i < n implies !space_here()(#[trigger] s[i]) by {
            assert(s[i] == word[i]);
        }
        if behind.len() > 0 {
            assert(s[n] == behind[0]);
        }
        lemma_prefix_len_is(s, space_here(), n);
        assert(s.take(n) =~= word);
        assert(s.skip(n) =~= behind);
    }
}

/// White space holds no words.
pub proof fn law_no_words(s: Seq<char>)
    requires
        is_blank(s),
    ensures
        word_list(s).len() == 0,
    decreases s.len(),
{
    if s.len() > 0 {
        assert(is_space(s[0]));
        assert forall|i: int| 0 <= i < s.skip(1).len() implies is_space(
            #[trigger] s.skip(1)[i],
        ) by {
            assert(s.skip(1)[i] == s[i + 1]);
        }
        law_no_words(s.skip(1));
    }
}

/// A line goes up to its line feed, and a carriage return before that does not belong to it; what is
/// left behind the last line feed is a line too.
pub proof fn law_lines(line: Seq<char>, rest: Seq<char>)
    requires
        !line.contains('\n'),
    ensures
        line_list(line.push('\n') + rest) == seq![
            if line.len() > 0 && line[line.len() - 1] == '\r' {
                line.take(line.len() - 1)
            } else {
                line
            },
        ] + line_list(rest),
        line.len() > 0 ==> line_list(line) == seq![line],
        line_list(Seq::empty()).len() == 0,
{
    let s = line.push('\n') + rest;
    let k = line.len() as int;
    assert forall|i: int| 0 <= i < k implies line[i] != '\n' by {
        assert(line.contains(line[i]));
    }
    assert forall|i: int| 0 <= i < k implies !at('\n')(#[trigger] s[i]) by {
        assert(s[i] == line[i]);
    }
    assert(s[k] == '\n');
    lemma_prefix_len_is(s, at('\n'), k);
    assert(s.take(k) =~= line);
    assert(s.skip(k + 1) =~= rest);
    if k > 0 {
        assert(line.drop_last() =~= line.take(k - 1));
        assert forall|i: int| 0 <= i < k implies !at('\n')(#[trigger] line[i]) by {}
        lemma_prefix_len_is(line, at('\n'), k);
    }
}

/// A digit is read as its value behind ten times what stands before it, as long as the number is not
/// too large.
pub proof fn law_number_digit_by_digit(s: Seq<char>, c: char, max: nat)
    requires
        '0' <= c <= '9',
    ensures
        number(seq![c], max) == (if c as int - '0' as int <= max {
            Some((c as int - '0' as int) as nat)
        } else {
            None
        }),
        number(s, max) is Some ==> number(s.push(c), max) == (if number(s, max)->0 * 10 + (c as int
            - '0' as int) <= max {
            Some((number(s, max)->0 * 10 + (c as int - '0' as int)) as nat)
        } else {
            None
        }),
        s.len() > 0 && s[0] != '+' ==> number(seq!['+'] + s, max) == number(s, max),
{
    let one = seq![c];
    assert(unsigned(one) =~= one);
    assert(one.drop_last() =~= Seq::<char>::empty());
    assert(digits_value(Seq::<char>::empty()) == 0);
    assert(is_digit(one[0]));
    assert(digits_value(one) == c as int - '0' as int);
    if number(s, max) is Some {
        let digits = unsigned(s);
        let more = unsigned(s.push(c));
        assert(more =~= digits.push(c));
        assert(more.drop_last() =~= digits);
        assert forall|i: int| 0 <= i < more.len() implies is_digit(#[trigger] more[i]) by {
            if i < digits.len() {
                assert(more[i] == digits[i]);
            }
        }
    }
    if s.len() > 0 && s[0] != '+' {
        assert((seq!['+'] + s).skip(1) =~= s);
    }
}

/// Nothing but digits behind an optional plus sign is a number.
pub proof fn law_no_number(s: Seq<char>, max: nat, i: int)
    requires
        s.len() == 0 || s == seq!['+'] || (0 <= i < s.len() && !('0' <= s[i] <= '9') && !(i == 0
            && s[0] == '+')),
    ensures
        number(s, max) is None,
{
    let digits = unsigned(s);
    if s.len() > 0 && s != seq!['+'] {
        if s[0] == '+' {
            assert(digits[i - 1] == s[i]);
            assert(!is_digit(digits[i - 1]));
        } else {
            assert(!is_digit(digits[i]));
        }
    }
}

/// A number is written digit by digit, without leading zeros.
pub proof fn law_decimal_digit_by_digit(n: nat, d: nat)
    requires
        d < 10,
    ensures
        decimal(d) == seq![(48 + d) as char],
        n > 0 ==> decimal(n * 10 + d) == decimal(n).push((48 + d) as char),
{
    if n > 0 {
        assert((n * 10 + d) / 10 == n);
        assert((n * 10 + d) % 10 == d);
    }
}

/// Texts are joined in their order, with the separator between each two of them.
pub proof fn law_joining(parts: Seq<Seq<char>>, last: Seq<char>, sep: Seq<char>)
    ensures
        joined(Seq::empty(), sep).len() == 0,
        joined(seq![last], sep) == last,
        parts.len() > 0 ==> joined(parts.push(last), sep) == joined(parts, sep) + sep + last,
{
    assert(parts.push(last).drop_last() =~= parts);
}

proof fn lemma_last_slash(path: Seq<char>, name: Seq<char>)
    requires
        !name.contains('/'),
        path.len() > 0 ==> path.last() == '/',
    ensures
        last_slash(path + name) == path.len() - 1,
    decreases name.len(),
{
    let s = path + name;
    if name.len() > 0 {
        assert(s.last() == name.last());
        assert(name.contains(name[name.len() - 1]));
        assert(s.drop_last() =~= path + name.drop_last());
        assert forall|c: char| name.drop_last().contains(c) implies name.contains(c) by {
            let i = choose|i: int| 0 <= i < name.drop_last().len() && name.drop_last()[i] == c;
            assert(name[i] == c);
        }
        lemma_last_slash(path, name.drop_last());
    } else {
        assert(s =~= path);
    }
}

/// What stands behind the last slash is the final component of a path, unless it is empty or a single
/// dot, which do not count, or two dots, which have no name.
pub proof fn law_final_component(directory: Seq<char>, name: Seq<char>)
    requires
        !name.contains('/'),
    ensures
        name.len() > 0 && name != seq!['.'] && name != seq!['.', '.'] ==> last_component(
            directory.push('/') + name,
        ) == Some(name) && last_component(name) == Some(name),
        name.len() == 0 || name == seq!['.'] ==> last_component(directory.push('/') + name)
            == last_component(directory) && last_component(name) is None,
        name == seq!['.', '.'] ==> last_component(directory.push('/') + name) is None
            && last_component(name) is None,
{
    let path = directory.push('/') + name;
    lemma_last_slash(directory.push('/'), name);
    lemma_last_slash(Seq::empty(), name);
    assert(Seq::<char>::empty() + name =~= name);
    assert(path.skip(directory.len() as int + 1) =~= name);
    assert(path.take(directory.len() as int) =~= directory);
    assert(name.skip(0) =~= name);
}

/// The white space characters: the blank, the tab, the ends of lines and pages, and the spaces of other
/// scripts and widths.
pub open spec fn white_space() -> Seq<char> {
    seq![
        '\t',
        '\n',
        '\u{b}',
        '\u{c}',
        '\r',
        ' ',
        '\u{85}',
        '\u{a0}',
        '\u{1680}',
        '\u{2000}',
        '\u{2001}',
        '\u{2002}',
        '\u{2003}',
        '\u{2004}',
        '\u{2005}',
        '\u{2006}',
        '\u{2007}',
        '\u{2008}',
        '\u{2009}',
        '\u{200a}',
        '\u{2028}',
        '\u{2029}',
        '\u{202f}',
        '\u{205f}',
        '\u{3000}',
    ]
}

/// White space is these characters and no others.
pub proof fn law_white_space(c: char)
    ensures
        is_space(c) <==> white_space().contains(c),
{
    let all = white_space();
    let n = c as u32;
    if is_space(c) {
        let i: int = if n <= 0x0d {
            n - 0x09
        } else if n == 0x20 {
            5
        } else if n == 0x85 {
            6
        } else if n == 0xa0 {
            7
        } else if n == 0x1680 {
            8
        } else if n <= 0x200a {
            n - 0x2000 + 9
        } else if n == 0x2028 {
            20
        } else if n == 0x2029 {
            21
        } else if n == 0x202f {
            22
        } else if n == 0x205f {
            23
        } else {
            24
        };
        assert(all[i] == c);
    }
}

} // verus!
