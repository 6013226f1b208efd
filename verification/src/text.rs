//! Texts: containment, case, numbers and lines.

use vstd::prelude::*;
use vstd::string::StrSliceExecFns;

verus! {

/// `needle` stands somewhere in `hay`.
pub open spec fn is_substring(hay: Seq<char>, needle: Seq<char>) -> bool {
    exists|i: int|
        0 <= i <= hay.len() - needle.len() && #[trigger] hay.subrange(i, i + needle.len())
            == needle
}

/// The text begins with a dot.
pub open spec fn begins_with_dot(text: Seq<char>) -> bool {
    text.len() > 0 && text[0] == '.'
}

/// The lower-case form that `str::to_lowercase` gives a text.
pub uninterp spec fn lowercase(text: Seq<char>) -> Seq<char>;

/// `String::push` puts one character behind a text.
pub assume_specification[ String::push ](text: &mut String, c: char)
    ensures
        final(text)@ == old(text)@.push(c),
;

/// Calls `str::contains` with a text as the pattern.
#[verifier::external_body]
pub(crate) fn contains_text(hay: &str, needle: &str) -> (res: bool)
    ensures
        res == is_substring(hay@, needle@),
{
    hay.contains(needle)
}

/// Calls `str::to_lowercase`.
#[verifier::external_body]
pub(crate) fn to_lower(text: &str) -> (res: String)
    ensures
        res@ == lowercase(text@),
{
    text.to_lowercase()
}

/// Whether a text begins with a dot, as the names of hidden files do.
pub(crate) fn starts_with_dot(text: &str) -> (res: bool)
    ensures
        res == begins_with_dot(text@),
{
    !text.is_empty() && text.get_char(0) == '.'
}

/// The digit character of a number below ten.
pub open spec fn digit_char(digit: int) -> char {
    if digit == 0 {
        '0'
    } else if digit == 1 {
        '1'
    } else if digit == 2 {
        '2'
    } else if digit == 3 {
        '3'
    } else if digit == 4 {
        '4'
    } else if digit == 5 {
        '5'
    } else if digit == 6 {
        '6'
    } else if digit == 7 {
        '7'
    } else if digit == 8 {
        '8'
    } else {
        '9'
    }
}

/// The digits of a number, the highest first; a zero is one digit.
pub open spec fn digits(n: nat) -> Seq<int>
    decreases n,
{
    if n < 10 {
        seq![n as int]
    } else {
        digits(n / 10).push((n % 10) as int)
    }
}

/// A number in decimal notation.
pub open spec fn decimal(n: nat) -> Seq<char> {
    digits(n).map_values(|d: int| digit_char(d))
}

/// The digits of a number, the highest first.
pub(crate) fn digits_of(n: u64) -> (res: Vec<u8>)
    ensures
        res@.map_values(|d: u8| d as int) == digits(n as nat),
        forall|i: int| 0 <= i < res@.len() ==> res@[i] < 10,
    decreases n,
{
    if n < 10 {
        let mut res: Vec<u8> = Vec::new();
        res.push(n as u8);
        assert(res@.map_values(|d: u8| d as int) =~= digits(n as nat));
        res
    } else {
        let mut res = digits_of(n / 10);
        let ghost front = res@;
        let low: u8 = (n % 10) as u8;
        res.push(low);
        assert(res@.map_values(|d: u8| d as int) =~= front.map_values(|d: u8| d as int).push(
            low as int,
        ));
        res
    }
}

/// The digit character of a number below ten.
pub(crate) fn char_of_digit(digit: u8) -> (res: char)
    ensures
        res == digit_char(digit as int),
{
    match digit {
        0 => '0',
        1 => '1',
        2 => '2',
        3 => '3',
        4 => '4',
        5 => '5',
        6 => '6',
        7 => '7',
        8 => '8',
        _ => '9',
    }
}

/// A number in decimal notation.
pub(crate) fn decimal_text(n: u64) -> (res: String)
    ensures
        res@ == decimal(n as nat),
{
    let all = digits_of(n);
    let mut res = String::new();
    let ghost want = digits(n as nat);
    for i in 0..all.len()
        invariant
            all@.map_values(|d: u8| d as int) == want,
            res@ == want.take(i as int).map_values(|d: int| digit_char(d)),
    {
        assert(want[i as int] == all@[i as int] as int);
        res.push(char_of_digit(all[i]));
        assert(want.take(i + 1).map_values(|d: int| digit_char(d)) =~= want.take(
            i as int,
        ).map_values(|d: int| digit_char(d)).push(digit_char(want[i as int])));
    }
    assert(want.take(want.len() as int) =~= want);
    res
}

/// A number whose decimal digits are the octal digits of another.
pub open spec fn octal_as_decimal(n: nat) -> nat
    decreases n,
{
    if n < 8 {
        n
    } else {
        octal_as_decimal(n / 8) * 10 + n % 8
    }
}

/// A number whose decimal digits are the octal digits of `n`.
pub(crate) fn octal_to_decimal(n: u32) -> (res: u64)
    ensures
        res == octal_as_decimal(n as nat),
        res <= n * n,
    decreases n,
{
    if n < 8 {
        assert(n <= n * n) by (nonlinear_arith);
        n as u64
    } else {
        let high = octal_to_decimal(n / 8);
        let m: u32 = n / 8;
        assert(m * m * 10 + 7 <= n * n) by (nonlinear_arith)
            requires
                1 <= m,
                8 * m <= n,
        ;
        assert(n * n <= u64::MAX) by (nonlinear_arith)
            requires
                0 <= n <= u32::MAX,
        ;
        high * 10 + (n % 8) as u64
    }
}

/// A line without the carriage return at its end.
pub open spec fn without_cr(line: Seq<char>) -> Seq<char> {
    if line.len() > 0 && line.last() == '\r' {
        line.drop_last()
    } else {
        line
    }
}

/// The lines of a text that are ended by a line feed, without their ends.
pub open spec fn ended_lines(text: Seq<char>) -> Seq<Seq<char>>
    decreases text.len(),
{
    if text.len() == 0 {
        seq![]
    } else if text.last() == '\n' {
        ended_lines(text.drop_last()).push(without_cr(open_line(text.drop_last())))
    } else {
        ended_lines(text.drop_last())
    }
}

/// What stands behind the last line feed of a text.
pub open spec fn open_line(text: Seq<char>) -> Seq<char>
    decreases text.len(),
{
    if text.len() == 0 {
        seq![]
    } else if text.last() == '\n' {
        seq![]
    } else {
        open_line(text.drop_last()).push(text.last())
    }
}

/// The lines of a text. A line ends with a line feed, or with a carriage
/// return and a line feed; the last one need not end.
pub open spec fn lines(text: Seq<char>) -> Seq<Seq<char>> {
    if open_line(text).len() == 0 {
        ended_lines(text)
    } else {
        ended_lines(text).push(open_line(text))
    }
}

/// The characters as a text.
pub(crate) fn text_of_chars(chars: &Vec<char>) -> (res: String)
    ensures
        res@ == chars@,
{
    let mut res = String::new();
    for i in 0..chars.len()
        invariant
            res@ == chars@.take(i as int),
    {
        res.push(chars[i]);
        assert(chars@.take(i + 1) =~= chars@.take(i as int).push(chars@[i as int]));
    }
    assert(chars@.take(chars@.len() as int) =~= chars@);
    res
}

/// The characters of texts.
pub open spec fn texts(strings: Seq<String>) -> Seq<Seq<char>> {
    strings.map_values(|s: String| s@)
}

/// The lines of a text.
pub(crate) fn lines_of(text: &str) -> (res: Vec<String>)
    ensures
        texts(res@) == lines(text@),
{
    let mut res: Vec<String> = Vec::new();
    let mut line: Vec<char> = Vec::new();
    let ghost all = text@;
    assert(texts(res@) =~= ended_lines(all.take(0)));
    assert(line@ =~= open_line(all.take(0)));
    for c in it: text.chars()
        invariant
            it.seq() == all,
            texts(res@) == ended_lines(all.take(it.index() as int)),
            line@ == open_line(all.take(it.index() as int)),
    {
        let ghost i = it.index() as int;
        let ghost before = res@;
        assert(all.take(i + 1).drop_last() =~= all.take(i));
        assert(all.take(i + 1).last() == c);
        if c == '\n' {
            if line.len() > 0 && line[line.len() - 1] == '\r' {
                line.pop();
            }
            assert(line@ =~= without_cr(open_line(all.take(i))));
            res.push(text_of_chars(&line));
            assert(texts(res@) =~= texts(before).push(line@));
            line = Vec::new();
            assert(line@ =~= seq![]);
        } else {
            line.push(c);
        }
    }
    assert(all.take(all.len() as int) =~= all);
    if line.len() > 0 {
        let ghost before = res@;
        res.push(text_of_chars(&line));
        assert(texts(res@) =~= texts(before).push(line@));
    }
    res
}

/// Texts one after the other, a line feed behind each.
pub open spec fn joined_lines(all: Seq<Seq<char>>) -> Seq<char>
    decreases all.len(),
{
    if all.len() == 0 {
        seq![]
    } else {
        joined_lines(all.drop_last()) + all.last() + seq!['\n']
    }
}

/// A text that can stand on a line of its own: it holds no line feed and does
/// not end in a carriage return.
pub open spec fn is_one_line(text: Seq<char>) -> bool {
    &&& !text.contains('\n')
    &&& text.len() > 0 ==> text.last() != '\r'
}

/// Lines that were put one after the other are read back as they were.
pub proof fn joined_lines_read_back(all: Seq<Seq<char>>)
    requires
        forall|i: int| 0 <= i < all.len() ==> is_one_line(#[trigger] all[i]),
    ensures
        lines(joined_lines(all)) == all,
{
    lemma_joined_lines(all);
}

proof fn lemma_joined_lines(all: Seq<Seq<char>>)
    requires
        forall|i: int| 0 <= i < all.len() ==> is_one_line(#[trigger] all[i]),
    ensures
        ended_lines(joined_lines(all)) == all,
        open_line(joined_lines(all)) == Seq::<char>::empty(),
    decreases all.len(),
{
    if all.len() > 0 {
        let front = joined_lines(all.drop_last());
        let line = all.last();
        assert forall|i: int| 0 <= i < all.drop_last().len() implies is_one_line(
            #[trigger] all.drop_last()[i],
        ) by {
            assert(all.drop_last()[i] == all[i]);
        }
        lemma_joined_lines(all.drop_last());
        assert(is_one_line(all[all.len() - 1]));
        lemma_open_line_grows(front, line);
        let whole = front + line + seq!['\n'];
        assert(whole.drop_last() =~= front + line);
        assert(open_line(front + line) =~= line);
        assert(all =~= all.drop_last().push(line));
    }
}

proof fn lemma_open_line_grows(text: Seq<char>, more: Seq<char>)
    requires
        !more.contains('\n'),
    ensures
        ended_lines(text + more) == ended_lines(text),
        open_line(text + more) == open_line(text) + more,
    decreases more.len(),
{
    if more.len() == 0 {
        assert(text + more =~= text);
        assert(open_line(text) + more =~= open_line(text));
    } else {
        let rest = more.drop_last();
        assert forall|i: int| 0 <= i < rest.len() implies rest[i] != '\n' by {
            assert(more.contains(more[i]));
        }
        assert(more.contains(more[more.len() - 1]));
        lemma_open_line_grows(text, rest);
        assert((text + more).drop_last() =~= text + rest);
        assert((text + more).last() == more.last());
        assert(open_line(text) + more =~= (open_line(text) + rest).push(more.last()));
    }
}

/// A text contains another exactly where it is made of something, the other and
/// something more.
pub proof fn substrings_stand_between(hay: Seq<char>, needle: Seq<char>)
    ensures
        is_substring(hay, needle) <==> exists|before: Seq<char>, after: Seq<char>|
            hay == #[trigger] (before + needle + after),
{
    if is_substring(hay, needle) {
        let i = choose|i: int|
            0 <= i <= hay.len() - needle.len() && #[trigger] hay.subrange(i, i + needle.len())
                == needle;
        let (before, after) = (hay.take(i), hay.skip(i + needle.len()));
        assert(hay =~= before + needle + after);
    }
    if exists|before: Seq<char>, after: Seq<char>| hay == #[trigger] (before + needle + after) {
        let (before, after) = choose|before: Seq<char>, after: Seq<char>|
            hay == #[trigger] (before + needle + after);
        let i = before.len() as int;
        assert(hay.subrange(i, i + needle.len()) =~= needle);
    }
}

/// The number that digits stand for in a base.
pub open spec fn number_in(base: nat, all: Seq<int>) -> int
    decreases all.len(),
{
    if all.len() == 0 {
        0
    } else {
        number_in(base, all.drop_last()) * base + all.last()
    }
}

/// The digits of a number stand for it, each is below ten, and the first is no
/// zero unless it is the only one.
pub proof fn digits_stand_for_the_number(n: nat)
    ensures
        number_in(10, digits(n)) == n,
        digits(n).len() > 0,
        forall|i: int| 0 <= i < digits(n).len() ==> 0 <= #[trigger] digits(n)[i] < 10,
        digits(n).len() > 1 ==> digits(n)[0] > 0,
        n > 0 ==> digits(n)[0] > 0,
    decreases n,
{
    if n >= 10 {
        digits_stand_for_the_number(n / 10);
        let front = digits(n / 10);
        assert(digits(n).drop_last() =~= front);
    } else {
        assert(digits(n).drop_last() =~= seq![]);
        assert(number_in(10, digits(n).drop_last()) == 0);
    }
}

/// A number in decimal notation consists of the characters of its digits, which
/// follow each other from that of zero on.
pub proof fn decimal_notation_writes_the_digits(n: nat)
    ensures
        decimal(n).len() == digits(n).len(),
        forall|i: int|
            0 <= i < digits(n).len() ==> (#[trigger] decimal(n)[i]) as int == '0' as int + digits(
                n,
            )[i],
{
    digits_stand_for_the_number(n);
    assert forall|i: int| 0 <= i < digits(n).len() implies (#[trigger] decimal(n)[i]) as int
        == '0' as int + digits(n)[i] by {
        assert(0 <= digits(n)[i] < 10);
    }
}

/// The decimal digits of [`octal_as_decimal`] are octal ones, and stand for the
/// number that it was made of.
pub proof fn octal_digits_stand_for_the_number(n: nat)
    ensures
        number_in(8, digits(octal_as_decimal(n))) == n,
        forall|i: int|
            0 <= i < digits(octal_as_decimal(n)).len() ==> 0 <= #[trigger] digits(
                octal_as_decimal(n),
            )[i] < 8,
        n > 0 ==> octal_as_decimal(n) > 0,
    decreases n,
{
    let m = octal_as_decimal(n);
    if n >= 8 {
        octal_digits_stand_for_the_number(n / 8);
        let front = digits(octal_as_decimal(n / 8));
        assert(m / 10 == octal_as_decimal(n / 8));
        assert(m % 10 == n % 8);
        assert(digits(m) == front.push((n % 8) as int));
        assert(digits(m).drop_last() =~= front);
    } else {
        assert(digits(m).drop_last() =~= seq![]);
        assert(number_in(8, digits(m).drop_last()) == 0);
    }
}

/// The lines of a text grow by one when a line is written behind it. A carriage
/// return before the line feed belongs to the end of the line; one that no line
/// feed follows belongs to the line.
pub proof fn lines_follow_each_other(text: Seq<char>, line: Seq<char>)
    requires
        text.len() == 0 || text.last() == '\n',
        !line.contains('\n'),
    ensures
        lines(Seq::empty()) == Seq::<Seq<char>>::empty(),
        lines(text + line + seq!['\n']) == lines(text).push(
            if line.len() > 0 && line.last() == '\r' {
                line.drop_last()
            } else {
                line
            },
        ),
        line.len() > 0 ==> lines(text + line) == lines(text).push(line),
{
    lemma_open_line_grows(text, line);
    assert(open_line(text) =~= seq![]);
    assert(open_line(text + line) =~= line);
    let whole = text + line + seq!['\n'];
    assert(whole.drop_last() =~= text + line);
    assert(whole.last() == '\n');
}

} // verus!
