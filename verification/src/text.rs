//! Small operations on text: decimal numbers, leading words, and slash-separated parts.

use vstd::prelude::*;
use vstd::string::StringExecFns;
use vstd::string::StrSliceExecFns;

verus! {

/// The character that writes a single decimal digit.
pub open spec fn digit_char(d: nat) -> char {
    ('0' as u32 + d) as char
}

/// The decimal notation of a number, without leading zeros.
pub open spec fn decimal_text(n: nat) -> Seq<char>
    decreases n,
{
    if n < 10 {
        seq![digit_char(n)]
    } else {
        decimal_text(n / 10).push(digit_char(n % 10))
    }
}

/// Whether a character is one of the ASCII digits.
pub open spec fn is_digit(c: char) -> bool {
    '0' <= c <= '9'
}

/// The number that a run of digits denotes.
pub open spec fn digits_value(s: Seq<char>) -> nat
    decreases s.len(),
{
    if s.len() == 0 {
        0
    } else {
        10 * digits_value(s.drop_last()) + (s.last() as u32 - '0' as u32) as nat
    }
}

/// The number that `digits` denotes, if it is one or more digits whose value fits in 64 bits.
pub open spec fn digits_number(digits: Seq<char>) -> Option<u64> {
    if digits.len() > 0 && (forall|i: int| 0 <= i < digits.len() ==> is_digit(#[trigger] digits[i]))
        && digits_value(digits) <= u64::MAX {
        Some(digits_value(digits) as u64)
    } else {
        None
    }
}

/// The number that `s` denotes, if `s` is an optional plus sign and then one or more digits whose
/// value fits in 64 bits.
pub open spec fn u64_value(s: Seq<char>) -> Option<u64> {
    if s.len() > 0 && s[0] == '+' {
        digits_number(s.skip(1))
    } else {
        digits_number(s)
    }
}

/// Why a text is not the notation of a number that fits.
#[derive(Clone, Copy, Debug, PartialEq, Eq, Structural)]
pub enum NumberError {
    /// There is nothing to read.
    Empty,
    /// There is something else than a digit.
    InvalidDigit,
    /// The number does not fit.
    Overflow,
}

/// The digits that a text starts with.
pub open spec fn leading_digits(s: Seq<char>) -> Seq<char>
    decreases s.len(),
{
    if s.len() == 0 {
        s
    } else {
        let before = leading_digits(s.drop_last());
        if before.len() == s.len() - 1 && is_digit(s.last()) {
            s
        } else {
            before
        }
    }
}

/// Why `s` is not the notation of a number that fits, if it is none: reading stops at the first
/// character at which the number is too large already, or that is no digit.
pub open spec fn number_error(s: Seq<char>) -> NumberError {
    let digits = if s.len() > 0 && s[0] == '+' {
        s.skip(1)
    } else {
        s
    };
    if s.len() == 0 {
        NumberError::Empty
    } else if digits_value(leading_digits(digits)) > u64::MAX {
        NumberError::Overflow
    } else {
        NumberError::InvalidDigit
    }
}

impl NumberError {
    /// The text of [`NumberError::message`].
    pub open spec fn message_text(self) -> Seq<char> {
        match self {
            NumberError::Empty => "cannot parse integer from empty string"@,
            NumberError::InvalidDigit => "invalid digit found in string"@,
            NumberError::Overflow => "number too large to fit in target type"@,
        }
    }

    /// Returns a description of the error.
    pub fn message(&self) -> (text: String)
        ensures
            text@ == self.message_text(),
    {
        match self {
            NumberError::Empty => "cannot parse integer from empty string".to_owned(),
            NumberError::InvalidDigit => "invalid digit found in string".to_owned(),
            NumberError::Overflow => "number too large to fit in target type".to_owned(),
        }
    }
}

/// The parts of `s` between the separators. There is one part more than there are separators.
pub open spec fn split_text(s: Seq<char>, separator: char) -> Seq<Seq<char>>
    decreases s.len(),
{
    if s.len() == 0 {
        seq![Seq::empty()]
    } else {
        let parts = split_text(s.drop_last(), separator);
        if s.last() == separator {
            parts.push(Seq::empty())
        } else {
            parts.drop_last().push(parts.last().push(s.last()))
        }
    }
}

/// The given parts one after another, with a separator between each two.
pub open spec fn join_text(parts: Seq<Seq<char>>, separator: Seq<char>) -> Seq<char>
    decreases parts.len(),
{
    if parts.len() == 0 {
        Seq::empty()
    } else if parts.len() == 1 {
        parts[0]
    } else {
        join_text(parts.drop_last(), separator) + separator + parts.last()
    }
}

/// The first `n` of the words of `s`, where a single space separates each word from the next.
pub open spec fn leading_words_text(s: Seq<char>, n: nat) -> Seq<char> {
    let words = split_text(s, ' ');
    join_text(words.take(if n < words.len() { n as int } else { words.len() as int }), " "@)
}

/// The views of a list of strings.
pub open spec fn views(parts: Seq<&str>) -> Seq<Seq<char>> {
    parts.map_values(|part: &str| part@)
}

/// The characters of a string.
pub fn chars_of(s: &str) -> (chars: Vec<char>)
    ensures
        chars@ == s@,
{
    let mut chars: Vec<char> = Vec::new();
    for c in iter: s.chars()
        invariant
            iter.seq() == s@,
            chars@ == s@.take(iter.index()),
    {
        chars.push(c);
        assert(s@.take(iter.index() + 1) =~= s@.take(iter.index()).push(c));
    }
    assert(s@.take(s@.len() as int) =~= s@);
    chars
}

fn push_digit(out: &mut String, d: u64)
    requires
        d < 10,
    ensures
        final(out)@ == old(out)@.push(digit_char(d as nat)),
{
    proof {
        reveal_strlit("0");
        reveal_strlit("1");
        reveal_strlit("2");
        reveal_strlit("3");
        reveal_strlit("4");
        reveal_strlit("5");
        reveal_strlit("6");
        reveal_strlit("7");
        reveal_strlit("8");
        reveal_strlit("9");
    }
    let digit = match d {
        0 => "0",
        1 => "1",
        2 => "2",
        3 => "3",
        4 => "4",
        5 => "5",
        6 => "6",
        7 => "7",
        8 => "8",
        _ => "9",
    };
    out.append(digit);
    assert(digit@ =~= seq![digit_char(d as nat)]);
    assert(out@ =~= old(out)@.push(digit_char(d as nat)));
}

fn push_decimal(out: &mut String, n: u64)
    ensures
        final(out)@ == old(out)@ + decimal_text(n as nat),
    decreases n,
{
    if n < 10 {
        push_digit(out, n);
        assert(out@ =~= old(out)@ + seq![digit_char(n as nat)]);
    } else {
        push_decimal(out, n / 10);
        push_digit(out, n % 10);
        assert(out@ =~= old(out)@ + decimal_text(n as nat));
    }
}

/// Writes a number in decimal notation.
pub fn decimal(n: u64) -> (out: String)
    ensures
        out@ == decimal_text(n as nat),
{
    let mut out = String::new();
    push_decimal(&mut out, n);
    assert(out@ =~= decimal_text(n as nat));
    out
}

/// Splits a string at every occurrence of a separator.
pub fn split<'a>(s: &'a str, separator: char) -> (parts: Vec<&'a str>)
    ensures
        views(parts@) == split_text(s@, separator),
        parts@.len() > 0,
{
    let chars = chars_of(s);
    let mut parts: Vec<&'a str> = Vec::new();
    let mut start: usize = 0;
    let mut i: usize = 0;
    assert(s@.take(0) =~= Seq::empty());
    assert(s@.subrange(0, 0) =~= Seq::empty());
    assert(split_text(s@.take(0), separator) =~= views(parts@).push(s@.subrange(0, 0)));
    while i < chars.len()
        invariant
            chars@ == s@,
            start <= i <= chars@.len(),
            split_text(s@.take(i as int), separator) == views(parts@).push(
                s@.subrange(start as int, i as int),
            ),
        decreases chars@.len() - i,
    {
        let ghost before = views(parts@);
        assert(s@.take(i + 1).drop_last() =~= s@.take(i as int));
        if chars[i] == separator {
            parts.push(s.substring_char(start, i));
            assert(views(parts@) =~= before.push(s@.subrange(start as int, i as int)));
            start = i + 1;
            assert(s@.subrange(start as int, i + 1) =~= Seq::empty());
        } else {
            assert(before.push(s@.subrange(start as int, i as int)).drop_last() =~= before);
            assert(s@.subrange(start as int, i + 1) =~= s@.subrange(start as int, i as int).push(
                s@[i as int],
            ));
        }
        i = i + 1;
    }
    assert(s@.take(i as int) =~= s@);
    let ghost before = views(parts@);
    parts.push(s.substring_char(start, chars.len()));
    assert(views(parts@) =~= before.push(s@.subrange(start as int, i as int)));
    parts
}

/// Joins the first `n` of some strings, with a separator between each two.
fn join_first(parts: &Vec<&str>, n: usize, separator: &str) -> (out: String)
    requires
        n <= parts@.len(),
    ensures
        out@ == join_text(views(parts@).take(n as int), separator@),
{
    let mut out = String::new();
    let mut i: usize = 0;
    assert(join_text(views(parts@).take(0), separator@) =~= out@);
    while i < n
        invariant
            i <= n <= parts@.len(),
            out@ == join_text(views(parts@).take(i as int), separator@),
        decreases n - i,
    {
        let ghost all = views(parts@);
        assert(all.take(i + 1).drop_last() =~= all.take(i as int));
        if i > 0 {
            out.append(separator);
        }
        out.append(parts[i]);
        assert(all.take(i + 1).last() == parts@[i as int]@);
        i = i + 1;
        assert(out@ =~= join_text(all.take(i as int), separator@));
    }
    out
}

/// Returns the first `n` words of `s`, where a single space separates each word from the next.
pub fn leading_words(s: &str, n: usize) -> (out: String)
    ensures
        out@ == leading_words_text(s@, n as nat),
{
    let words = split(s, ' ');
    let count: usize = if n < words.len() {
        n
    } else {
        words.len()
    };
    assert(views(words@).len() == words@.len());
    join_first(&words, count, " ")
}

/// Joins strings, with a separator between each two.
pub fn join(parts: &Vec<String>, separator: &str) -> (out: String)
    ensures
        out@ == join_text(parts@.map_values(|part: String| part@), separator@),
{
    let mut out = String::new();
    let ghost all = parts@.map_values(|part: String| part@);
    let mut i: usize = 0;
    assert(join_text(all.take(0), separator@) =~= out@);
    while i < parts.len()
        invariant
            i <= parts@.len(),
            all == parts@.map_values(|part: String| part@),
            out@ == join_text(all.take(i as int), separator@),
        decreases parts@.len() - i,
    {
        assert(all.take(i + 1).drop_last() =~= all.take(i as int));
        if i > 0 {
            out.append(separator);
        }
        out.append(parts[i].as_str());
        assert(all.take(i + 1).last() == parts@[i as int]@);
        i = i + 1;
        assert(out@ =~= join_text(all.take(i as int), separator@));
    }
    assert(all.take(i as int) =~= all);
    out
}

proof fn lemma_digits_value_grows(s: Seq<char>, i: int)
    requires
        0 <= i <= s.len(),
        forall|j: int| 0 <= j < s.len() ==> is_digit(#[trigger] s[j]),
    ensures
        digits_value(s.take(i)) <= digits_value(s),
    decreases s.len() - i,
{
    if i == s.len() {
        assert(s.take(i) =~= s);
    } else {
        assert(s.take(i + 1).drop_last() =~= s.take(i));
        assert(is_digit(s[i]));
        lemma_digits_value_grows(s, i + 1);
    }
}

/// The digits that a text starts with are its first ones up to something that is no digit, or all
/// of them.
proof fn lemma_leading_digits(s: Seq<char>)
    ensures
        leading_digits(s).len() <= s.len(),
        leading_digits(s) == s.take(leading_digits(s).len() as int),
        forall|j: int|
            0 <= j < leading_digits(s).len() ==> is_digit(#[trigger] leading_digits(s)[j]),
        leading_digits(s).len() < s.len() ==> !is_digit(s[leading_digits(s).len() as int]),
    decreases s.len(),
{
    if s.len() > 0 {
        let shorter = s.drop_last();
        lemma_leading_digits(shorter);
        let before = leading_digits(shorter);
        assert(shorter.take(before.len() as int) =~= s.take(before.len() as int));
        if before.len() == shorter.len() && is_digit(s.last()) {
            assert(s.take(s.len() as int) =~= s);
            assert forall|j: int| 0 <= j < s.len() implies is_digit(#[trigger] s[j]) by {
                if j < shorter.len() {
                    assert(before[j] == s[j]);
                }
            }
        } else if before.len() < shorter.len() {
            assert(shorter[before.len() as int] == s[before.len() as int]);
        }
    } else {
        assert(s.take(0) =~= s);
    }
}

/// Where the first characters of a text are digits, they are among those that it starts with.
proof fn lemma_leading_digits_cover(s: Seq<char>, i: int)
    requires
        0 <= i <= s.len(),
        forall|j: int| 0 <= j < i ==> is_digit(#[trigger] s[j]),
    ensures
        leading_digits(s).len() >= i,
        digits_value(s.take(i)) <= digits_value(leading_digits(s)),
{
    lemma_leading_digits(s);
    let run = leading_digits(s);
    if run.len() < i {
        assert(is_digit(s[run.len() as int]));
    }
    assert(run.take(i) =~= s.take(i));
    lemma_digits_value_grows(run, i);
}

fn parse_digits(chars: &Vec<char>, start: usize) -> (value: Result<u64, NumberError>)
    requires
        start <= chars@.len(),
    ensures
        ({
            let digits = chars@.skip(start as int);
            match value {
                Ok(number) => digits_number(digits) == Some(number),
                Err(error) => digits_number(digits) is None && error == (if digits_value(
                    leading_digits(digits),
                ) > u64::MAX {
                    NumberError::Overflow
                } else {
                    NumberError::InvalidDigit
                }),
            }
        }),
{
    let ghost digits = chars@.skip(start as int);
    if start == chars.len() {
        return Err(NumberError::InvalidDigit);
    }
    let mut value: u64 = 0;
    let mut i: usize = start;
    assert(digits.take(0) =~= Seq::empty());
    while i < chars.len()
        invariant
            start <= i <= chars@.len(),
            digits == chars@.skip(start as int),
            digits.len() > 0,
            forall|j: int| 0 <= j < i - start ==> is_digit(#[trigger] digits[j]),
            value == digits_value(digits.take(i - start)),
        decreases chars@.len() - i,
    {
        let c = chars[i];
        assert(c == digits[i - start]);
        if c < '0' || '9' < c {
            proof {
                lemma_leading_digits(digits);
                lemma_leading_digits_cover(digits, i - start);
                let run = leading_digits(digits);
                if run.len() > i - start {
                    assert(is_digit(run[i - start]));
                }
                assert(run == digits.take(i - start));
            }
            return Err(NumberError::InvalidDigit);
        }
        let d: u64 = c as u64 - '0' as u64;
        assert(digits.take(i - start + 1).drop_last() =~= digits.take(i - start));
        assert(digits_value(digits.take(i - start + 1)) == 10 * value + d);
        if value > (u64::MAX - d) / 10 {
            proof {
                if forall|j: int| 0 <= j < digits.len() ==> is_digit(#[trigger] digits[j]) {
                    lemma_digits_value_grows(digits, i - start + 1);
                }
                lemma_leading_digits_cover(digits, i - start + 1);
            }
            return Err(NumberError::Overflow);
        }
        value = value * 10 + d;
        i = i + 1;
    }
    assert(digits.take(i - start) =~= digits);
    Ok(value)
}

/// Reads a number written as an optional plus sign and one or more digits. If `s` is written
/// otherwise, or if the number does not fit, returns why.
pub fn parse_u64(s: &str) -> (value: Result<u64, NumberError>)
    ensures
        match value {
            Ok(number) => u64_value(s@) == Some(number),
            Err(error) => u64_value(s@) is None && error == number_error(s@),
        },
{
    let chars = chars_of(s);
    if chars.len() == 0 {
        return Err(NumberError::Empty);
    }
    let start: usize = if chars[0] == '+' {
        1
    } else {
        0
    };
    assert(chars@.skip(0) =~= s@);
    parse_digits(&chars, start)
}

/// The decimal notation of a number is made of digits, and denotes the number.
pub proof fn lemma_decimal_digits(n: nat)
    ensures
        decimal_text(n).len() > 0,
        forall|i: int| 0 <= i < decimal_text(n).len() ==> is_digit(#[trigger] decimal_text(n)[i]),
        digits_value(decimal_text(n)) == n,
    decreases n,
{
    let text = decimal_text(n);
    if n < 10 {
        assert(text.drop_last() =~= Seq::empty());
        reveal_with_fuel(digits_value, 2);
    } else {
        lemma_decimal_digits(n / 10);
        assert(text.drop_last() =~= decimal_text(n / 10));
    }
}

/// A number is read back from its decimal notation, which has only digits in it.
pub proof fn law_decimal_is_read_back(n: u64)
    ensures
        u64_value(decimal_text(n as nat)) == Some(n),
        forall|i: int|
            0 <= i < decimal_text(n as nat).len() ==> is_digit(
                #[trigger] decimal_text(n as nat)[i],
            ),
        decimal_text(n as nat).len() > 0,
{
    lemma_decimal_digits(n as nat);
    assert(is_digit(decimal_text(n as nat)[0]));
}

/// What stands behind the last separator of a text is its last part.
pub proof fn lemma_split_last(s: Seq<char>, separator: char, part: Seq<char>)
    requires
        !part.contains(separator),
    ensures
        split_text(s.push(separator) + part, separator) == split_text(s, separator).push(part),
    decreases part.len(),
{
    let all = s.push(separator) + part;
    if part.len() == 0 {
        assert(all =~= s.push(separator));
        assert(all.drop_last() =~= s);
        assert(part =~= Seq::empty());
    } else {
        let shorter = part.drop_last();
        assert(!shorter.contains(separator)) by {
            if shorter.contains(separator) {
                let i = choose|i: int| 0 <= i < shorter.len() && shorter[i] == separator;
                assert(part[i] == separator);
            }
        }
        lemma_split_last(s, separator, shorter);
        assert(all.drop_last() =~= s.push(separator) + shorter);
        assert(part[part.len() - 1] == part.last());
        assert(shorter.push(part.last()) =~= part);
        assert(split_text(all, separator) =~= split_text(s, separator).push(part));
    }
}

/// Parts in which there is no separator come back when they are joined by it and split again.
pub proof fn lemma_split_joined(parts: Seq<Seq<char>>, separator: char)
    requires
        parts.len() > 0,
        forall|i: int| 0 <= i < parts.len() ==> !(#[trigger] parts[i]).contains(separator),
    ensures
        split_text(join_text(parts, seq![separator]), separator) == parts,
    decreases parts.len(),
{
    let last = parts.last();
    assert(parts[parts.len() - 1] == last);
    if parts.len() == 1 {
        lemma_split_whole(last, separator);
        assert(parts =~= seq![last]);
    } else {
        let earlier = parts.drop_last();
        assert forall|i: int| 0 <= i < earlier.len() implies !(#[trigger] earlier[i]).contains(
            separator,
        ) by {
            assert(earlier[i] == parts[i]);
        }
        lemma_split_joined(earlier, separator);
        let front = join_text(earlier, seq![separator]);
        assert(front + seq![separator] + last =~= front.push(separator) + last);
        lemma_split_last(front, separator, last);
        assert(earlier.push(last) =~= parts);
    }
}

proof fn lemma_split_whole(s: Seq<char>, separator: char)
    requires
        !s.contains(separator),
    ensures
        split_text(s, separator) == seq![s],
    decreases s.len(),
{
    if s.len() > 0 {
        let shorter = s.drop_last();
        assert(!shorter.contains(separator)) by {
            if shorter.contains(separator) {
                let i = choose|i: int| 0 <= i < shorter.len() && shorter[i] == separator;
                assert(s[i] == separator);
            }
        }
        lemma_split_whole(shorter, separator);
        assert(s[s.len() - 1] == s.last());
        assert(shorter.push(s.last()) =~= s);
        assert(split_text(s, separator) =~= seq![s]);
    } else {
        assert(s =~= Seq::empty());
    }
}

/// Whether a text stands somewhere in another.
pub open spec fn occurs(part: Seq<char>, text: Seq<char>) -> bool {
    exists|at: int| #[trigger] occurs_at(part, text, at)
}

/// Whether a text stands in another at a place.
pub open spec fn occurs_at(part: Seq<char>, text: Seq<char>, at: int) -> bool {
    &&& 0 <= at <= text.len() - part.len()
    &&& forall|i: int| 0 <= i < part.len() ==> #[trigger] text[at + i] == part[i]
}

/// What stands in the middle of a text stands in it.
pub proof fn lemma_occurs_within(before: Seq<char>, part: Seq<char>, behind: Seq<char>)
    ensures
        occurs(part, before + part + behind),
{
    assert(occurs_at(part, before + part + behind, before.len() as int));
}

/// What stands in something that stands in a text stands in that text.
pub proof fn lemma_occurs_through(part: Seq<char>, middle: Seq<char>, text: Seq<char>)
    requires
        occurs(part, middle),
        occurs(middle, text),
    ensures
        occurs(part, text),
{
    let inner = choose|at: int| #[trigger] occurs_at(part, middle, at);
    let outer = choose|at: int| #[trigger] occurs_at(middle, text, at);
    assert forall|i: int| 0 <= i < part.len() implies #[trigger] text[outer + inner + i]
        == part[i] by {
        assert(middle[inner + i] == part[i]);
        assert(text[outer + (inner + i)] == middle[inner + i]);
    }
    assert(occurs_at(part, text, outer + inner));
}

/// Joined parts stand in the joined text, each of them.
pub proof fn lemma_occurs_joined(parts: Seq<Seq<char>>, separator: Seq<char>, i: int)
    requires
        0 <= i < parts.len(),
    ensures
        occurs(parts[i], join_text(parts, separator)),
    decreases parts.len(),
{
    let text = join_text(parts, separator);
    let none = Seq::<char>::empty();
    if parts.len() == 1 {
        lemma_occurs_within(none, parts[0], none);
        assert(none + parts[0] + none =~= text);
    } else if i == parts.len() - 1 {
        let front = join_text(parts.drop_last(), separator) + separator;
        lemma_occurs_within(front, parts[i], none);
        assert(front + parts[i] + none =~= text);
    } else {
        let front = join_text(parts.drop_last(), separator);
        lemma_occurs_joined(parts.drop_last(), separator, i);
        lemma_occurs_within(none, front, separator + parts.last());
        assert(none + front + (separator + parts.last()) =~= text);
        lemma_occurs_through(parts[i], front, text);
    }
}

/// Joining is associative: the parts of two lists are joined as the two joined texts are. A single
/// part is joined to itself.
pub proof fn law_joining_goes_part_by_part(
    first: Seq<Seq<char>>,
    second: Seq<Seq<char>>,
    separator: Seq<char>,
)
    requires
        first.len() > 0,
        second.len() > 0,
    ensures
        join_text(first + second, separator) == join_text(first, separator) + separator + join_text(
            second,
            separator,
        ),
        first.len() == 1 ==> join_text(first, separator) == first[0],
        join_text(Seq::empty(), separator).len() == 0,
    decreases second.len(),
{
    let all = first + second;
    assert(all.drop_last() =~= first + second.drop_last());
    if second.len() == 1 {
        assert(all.drop_last() =~= first);
    } else {
        law_joining_goes_part_by_part(first, second.drop_last(), separator);
    }
    assert(join_text(all, separator) =~= join_text(first, separator) + separator + join_text(
        second,
        separator,
    ));
}

/// Splitting undoes joining and joining undoes splitting: the parts of a text, joined by the
/// separator, are the text, there is no separator in any of them, and there is at least one.
pub proof fn law_splitting_loses_nothing(s: Seq<char>, separator: char)
    ensures
        join_text(split_text(s, separator), seq![separator]) == s,
        split_text(s, separator).len() > 0,
        forall|i: int|
            0 <= i < split_text(s, separator).len() ==> !(#[trigger] split_text(
                s,
                separator,
            )[i]).contains(separator),
    decreases s.len(),
{
    let parts = split_text(s, separator);
    let sep = seq![separator];
    if s.len() == 0 {
        assert(parts =~= seq![Seq::<char>::empty()]);
        assert(join_text(parts, sep) =~= s);
    } else {
        let before = split_text(s.drop_last(), separator);
        law_splitting_loses_nothing(s.drop_last(), separator);
        assert(s =~= s.drop_last().push(s.last()));
        if s.last() == separator {
            assert(parts.drop_last() =~= before);
            assert(join_text(parts, sep) =~= s);
        } else {
            let longer = before.last().push(s.last());
            assert(parts =~= before.drop_last().push(longer));
            assert(before[before.len() - 1] == before.last());
            if longer.contains(separator) {
                let k = choose|k: int| 0 <= k < longer.len() && longer[k] == separator;
                assert(before.last()[k] == separator);
            }
            assert forall|i: int| 0 <= i < parts.len() implies !(
            #[trigger] parts[i]).contains(separator) by {
                if i < before.len() - 1 {
                    assert(parts[i] == before[i]);
                }
            }
            assert(parts.drop_last() =~= before.drop_last());
            assert(join_text(parts, sep) =~= s);
        }
    }
}

/// The first words of a text are a beginning of it: as many words as asked for, or the whole text if
/// it has no more.
pub proof fn law_leading_words_begin_the_text(s: Seq<char>, n: nat)
    ensures
        leading_words_text(s, n).is_prefix_of(s),
        n >= split_text(s, ' ').len() ==> leading_words_text(s, n) == s,
        0 < n < split_text(s, ' ').len() ==> {
            let text = leading_words_text(s, n);
            &&& text.len() < s.len()
            &&& s[text.len() as int] == ' '
            &&& split_text(text, ' ') == split_text(s, ' ').take(n as int)
        },
        n == 0 ==> leading_words_text(s, n).len() == 0,
{
    reveal_strlit(" ");
    assert(" "@ =~= seq![' ']);
    let words = split_text(s, ' ');
    law_splitting_loses_nothing(s, ' ');
    let text = leading_words_text(s, n);
    if n >= words.len() {
        assert(words.take(words.len() as int) =~= words);
        assert(s.subrange(0, s.len() as int) =~= s);
    } else if n == 0 {
        assert(words.take(0) =~= Seq::empty());
        assert(text =~= Seq::empty());
        assert(s.subrange(0, 0) =~= text);
    } else {
        let (first, second) = (words.take(n as int), words.skip(n as int));
        assert(first + second =~= words);
        law_joining_goes_part_by_part(first, second, seq![' ']);
        assert(s == text + seq![' '] + join_text(second, seq![' ']));
        assert(s.subrange(0, text.len() as int) =~= text);
        assert forall|i: int| 0 <= i < first.len() implies !(#[trigger] first[i]).contains(
            ' ',
        ) by {
            assert(first[i] == words[i]);
        }
        lemma_split_joined(first, ' ');
    }
}

/// Digits are the characters with the codes of `0` to `9`, and a run of digits denotes what it does
/// by position: ten times as much for each digit behind.
pub proof fn law_digits_are_positional(s: Seq<char>, c: char)
    ensures
        is_digit(c) <==> 48 <= c as u32 <= 57,
        is_digit(c) ==> digits_value(seq![c]) == c as u32 - 48,
        is_digit(c) ==> digits_value(s.push(c)) == 10 * digits_value(s) + (c as u32 - 48),
{
    reveal_with_fuel(digits_value, 2);
    assert(s.push(c).drop_last() =~= s);
    assert(seq![c].drop_last() =~= Seq::empty());
}

/// A text is a number just when it is made of one or more digits, with or without a plus sign before
/// them, and what they denote fits.
pub proof fn law_numbers_are_digits(digits: Seq<char>)
    ensures
        ({
            let all = forall|i: int|
                0 <= i < digits.len() ==> 48 <= (#[trigger] digits[i]) as int <= 57;
            let number = digits.len() > 0 && all && digits_value(digits) <= 0xffff_ffff_ffff_ffff;
            &&& u64_value(seq!['+'] + digits) == if number {
                Some(digits_value(digits) as u64)
            } else {
                None
            }
            &&& !(digits.len() > 0 && digits[0] == '+') ==> u64_value(digits) == if number {
                Some(digits_value(digits) as u64)
            } else {
                None
            }
        }),
{
    assert((seq!['+'] + digits).skip(1) =~= digits);
    if forall|i: int| 0 <= i < digits.len() ==> 48 <= (#[trigger] digits[i]) as int <= 57 {
        assert forall|i: int| 0 <= i < digits.len() implies is_digit(#[trigger] digits[i]) by {}
    } else {
        let i = choose|i: int|
            0 <= i < digits.len() && !(48 <= (#[trigger] digits[i]) as int <= 57);
        assert(!is_digit(digits[i]));
    }
}

/// Why a text is no number: nothing is there at all; or there is a digit too many, before anything
/// that is no digit; or there is something that is no digit.
pub proof fn law_number_errors(digits: Seq<char>, n: int)
    requires
        0 <= n <= digits.len(),
        forall|i: int| 0 <= i < n ==> 48 <= (#[trigger] digits[i]) as int <= 57,
        n < digits.len() ==> !(48 <= digits[n] as int <= 57),
        n > 0 || digits.len() == 0 || digits[0] != '+',
    ensures
        number_error(Seq::empty()) == NumberError::Empty,
        digits.len() > 0 && digits_value(digits.take(n)) > 0xffff_ffff_ffff_ffff ==> number_error(
            digits,
        ) == NumberError::Overflow,
        digits.len() > 0 && digits_value(digits.take(n)) <= 0xffff_ffff_ffff_ffff ==> number_error(
            digits,
        ) == NumberError::InvalidDigit,
        number_error(seq!['+'] + digits) == if digits_value(digits.take(n))
            > 0xffff_ffff_ffff_ffff {
            NumberError::Overflow
        } else {
            NumberError::InvalidDigit
        },
{
    lemma_leading_digits(digits);
    let run = leading_digits(digits);
    assert forall|i: int| 0 <= i < n implies is_digit(#[trigger] digits[i]) by {}
    lemma_leading_digits_cover(digits, n);
    if run.len() > n {
        assert(is_digit(run[n]));
        assert(run[n] == digits[n]);
    }
    assert(run == digits.take(n));
    assert((seq!['+'] + digits).skip(1) =~= digits);
}

} // verus!
