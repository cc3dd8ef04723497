//! Finding what may be an address in a message.

use vstd::prelude::*;
use vstd::string::StrSliceExecFns;

use crate::text::chars_of;

verus! {

/// Whether a character is an ASCII letter or digit.
pub open spec fn is_word_char(c: char) -> bool {
    ('0' <= c <= '9') || ('A' <= c <= 'Z') || ('a' <= c <= 'z')
}

/// Whether `s[i..j]` is a word: a run of letters and digits that goes on neither before nor behind.
pub open spec fn is_word(s: Seq<char>, i: int, j: int) -> bool {
    &&& 0 <= i < j <= s.len()
    &&& forall|k: int| i <= k < j ==> is_word_char(#[trigger] s[k])
    &&& i > 0 ==> !is_word_char(s[i - 1])
    &&& j < s.len() ==> !is_word_char(s[j])
}

/// Where the run of letters and digits that goes on at `i` ends.
pub open spec fn word_end(s: Seq<char>, i: int) -> int
    decreases s.len() - i,
{
    if 0 <= i < s.len() && is_word_char(s[i]) {
        word_end(s, i + 1)
    } else {
        i
    }
}

/// The words of `s` from `i` on that start with a prefix, in order.
pub open spec fn words_from(s: Seq<char>, prefix: Seq<char>, i: int) -> Seq<Seq<char>>
    decreases s.len() - i,
    via words_from_ends
{
    if i < 0 || i >= s.len() {
        Seq::empty()
    } else if !is_word_char(s[i]) {
        words_from(s, prefix, i + 1)
    } else {
        let word = s.subrange(i, word_end(s, i));
        let rest = words_from(s, prefix, word_end(s, i));
        if prefix.is_prefix_of(word) {
            seq![word] + rest
        } else {
            rest
        }
    }
}

#[via_fn]
proof fn words_from_ends(s: Seq<char>, prefix: Seq<char>, i: int) {
    if 0 <= i < s.len() && is_word_char(s[i]) {
        lemma_word_end(s, i);
    }
}

/// The words of `s` that start with a prefix, in order.
pub open spec fn candidates(s: Seq<char>, prefix: Seq<char>) -> Seq<Seq<char>> {
    words_from(s, prefix, 0)
}

proof fn lemma_word_end(s: Seq<char>, i: int)
    requires
        0 <= i < s.len(),
        is_word_char(s[i]),
    ensures
        i < word_end(s, i) <= s.len(),
        forall|k: int| i <= k < word_end(s, i) ==> is_word_char(#[trigger] s[k]),
        word_end(s, i) < s.len() ==> !is_word_char(s[word_end(s, i)]),
    decreases s.len() - i,
{
    reveal_with_fuel(word_end, 2);
    if i + 1 < s.len() && is_word_char(s[i + 1]) {
        lemma_word_end(s, i + 1);
    }
}

/// Returns the words of a message that start with a prefix, in order. The words are the longest runs
/// of ASCII letters and digits.
pub fn candidate_words(content: &str, prefix: &str) -> (words: Vec<String>)
    ensures
        words@.map_values(|word: String| word@) == candidates(content@, prefix@),
{
    let chars = chars_of(content);
    let start = chars_of(prefix);
    let ghost text_of = |word: String| word@;
    let mut words: Vec<String> = Vec::new();
    let mut i: usize = 0;
    assert(words@.map_values(text_of) + words_from(content@, prefix@, 0) =~= candidates(
        content@,
        prefix@,
    ));
    while i < chars.len()
        invariant
            i <= chars@.len(),
            chars@ == content@,
            start@ == prefix@,
            text_of == (|word: String| word@),
            words@.map_values(text_of) + words_from(content@, prefix@, i as int) == candidates(
                content@,
                prefix@,
            ),
        decreases chars@.len() - i,
    {
        if !is_letter_or_digit(chars[i]) {
            i = i + 1;
            continue;
        }
        proof {
            lemma_word_end(content@, i as int);
        }
        let mut end: usize = i;
        while end < chars.len() && is_letter_or_digit(chars[end])
            invariant
                i <= end <= chars@.len(),
                chars@ == content@,
                word_end(content@, i as int) == word_end(content@, end as int),
            decreases chars@.len() - end,
        {
            end = end + 1;
        }
        let ghost before = words@.map_values(text_of);
        let ghost rest = words_from(content@, prefix@, end as int);
        if starts_with(&chars, i, end, &start) {
            words.push(content.substring_char(i, end).to_owned());
            assert(words@.map_values(text_of) =~= before.push(
                content@.subrange(i as int, end as int),
            ));
            assert(before + (seq![content@.subrange(i as int, end as int)] + rest)
                =~= words@.map_values(text_of) + rest);
        }
        i = end;
    }
    assert(words@.map_values(text_of) =~= candidates(content@, prefix@));
    words
}

fn is_letter_or_digit(c: char) -> (yes: bool)
    ensures
        yes == is_word_char(c),
{
    ('0' <= c && c <= '9') || ('A' <= c && c <= 'Z') || ('a' <= c && c <= 'z')
}

fn starts_with(chars: &Vec<char>, from: usize, to: usize, prefix: &Vec<char>) -> (yes: bool)
    requires
        from <= to <= chars@.len(),
    ensures
        yes == prefix@.is_prefix_of(chars@.subrange(from as int, to as int)),
{
    let ghost word = chars@.subrange(from as int, to as int);
    if prefix.len() > to - from {
        return false;
    }
    let mut i: usize = 0;
    while i < prefix.len()
        invariant
            i <= prefix@.len() <= to - from,
            from <= to <= chars@.len(),
            word == chars@.subrange(from as int, to as int),
            forall|k: int| 0 <= k < i ==> #[trigger] prefix@[k] == word[k],
        decreases prefix@.len() - i,
    {
        if chars[from + i] != prefix[i] {
            assert(prefix@[i as int] != word[i as int]);
            assert(prefix@[i as int] != word.subrange(0, prefix@.len() as int)[i as int]);
            return false;
        }
        i = i + 1;
    }
    assert(prefix@ =~= word.subrange(0, prefix@.len() as int));
    true
}

/// The candidates in a message are just its words that start with the prefix: runs of letters and
/// digits that go on neither before nor behind.
pub proof fn law_candidates_are_the_words(s: Seq<char>, prefix: Seq<char>)
    ensures
        forall|word: Seq<char>| #[trigger]
            candidates(s, prefix).contains(word) <==> exists|i: int, j: int|
                #[trigger] is_word(s, i, j) && s.subrange(i, j) == word && prefix.is_prefix_of(
                    word,
                ),
{
    assert forall|word: Seq<char>| #[trigger] candidates(s, prefix).contains(word) <==> exists|
        i: int,
        j: int,
    | #[trigger] is_word(s, i, j) && s.subrange(i, j) == word && prefix.is_prefix_of(word) by {
        lemma_words_from(s, prefix, 0, word);
        if exists|i: int, j: int| #[trigger]
            is_word(s, i, j) && s.subrange(i, j) == word && prefix.is_prefix_of(word) {
            let (i, j) = choose|i: int, j: int| #[trigger]
                is_word(s, i, j) && s.subrange(i, j) == word && prefix.is_prefix_of(word);
            assert(word_at(s, prefix, 0, word, i, j));
        }
        if candidates(s, prefix).contains(word) {
            let (i, j) = choose|i: int, j: int| word_at(s, prefix, 0, word, i, j);
            assert(is_word(s, i, j));
        }
    }
}

spec fn word_at(s: Seq<char>, prefix: Seq<char>, from: int, word: Seq<char>, i: int, j: int) -> bool {
    from <= i && is_word(s, i, j) && s.subrange(i, j) == word && prefix.is_prefix_of(word)
}

proof fn lemma_words_from(s: Seq<char>, prefix: Seq<char>, from: int, word: Seq<char>)
    requires
        0 <= from <= s.len(),
        0 < from < s.len() ==> !is_word_char(s[from - 1]) || !is_word_char(s[from]),
    ensures
        words_from(s, prefix, from).contains(word) <==> exists|i: int, j: int|
            word_at(s, prefix, from, word, i, j),
    decreases s.len() - from,
{
    let all = words_from(s, prefix, from);
    if from == s.len() {
        assert(all =~= Seq::empty());
    } else if !is_word_char(s[from]) {
        let next = from + 1;
        lemma_words_from(s, prefix, next, word);
        if exists|i: int, j: int| word_at(s, prefix, from, word, i, j) {
            let (i, j) = choose|i: int, j: int| word_at(s, prefix, from, word, i, j);
            assert(word_at(s, prefix, next, word, i, j));
        }
        if all.contains(word) {
            let (i, j) = choose|i: int, j: int| word_at(s, prefix, next, word, i, j);
            assert(word_at(s, prefix, from, word, i, j));
        }
    } else {
        lemma_word_end(s, from);
        let end = word_end(s, from);
        let first = s.subrange(from, end);
        let rest = words_from(s, prefix, end);
        lemma_words_from(s, prefix, end, word);
        assert(is_word(s, from, end));
        if prefix.is_prefix_of(first) {
            assert(all == seq![first] + rest);
            if all.contains(word) {
                let k = choose|k: int| 0 <= k < all.len() && all[k] == word;
                if k == 0 {
                    assert(word_at(s, prefix, from, word, from, end));
                } else {
                    assert(rest[k - 1] == word);
                }
            }
            assert(all[0] == first);
            if rest.contains(word) {
                let k = choose|k: int| 0 <= k < rest.len() && rest[k] == word;
                assert(all[k + 1] == word);
            }
        }
        if rest.contains(word) {
            let (i, j) = choose|i: int, j: int| word_at(s, prefix, end, word, i, j);
            assert(word_at(s, prefix, from, word, i, j));
        }
        if exists|i: int, j: int| word_at(s, prefix, from, word, i, j) {
            let (i, j) = choose|i: int, j: int| word_at(s, prefix, from, word, i, j);
            if i >= end {
                assert(word_at(s, prefix, end, word, i, j));
            } else {
                if i > from {
                    assert(is_word_char(s[i - 1]));
                }
                if j < end {
                    assert(is_word_char(s[j]));
                }
                if end < j {
                    assert(is_word_char(s[end]));
                }
            }
        }
    }
}

/// The characters of a word are the ASCII letters and digits, by their codes.
pub proof fn law_word_characters(c: char)
    ensures
        is_word_char(c) <==> 48 <= c as int <= 57 || 65 <= c as int <= 90 || 97 <= c as int <= 122,
{
}

/// An address in a message is found in full: whatever stands around it, as long as it is no letter or
/// digit that touches it. The letters and digits are given by their codes.
pub proof fn law_addresses_are_found_in_full(
    before: Seq<char>,
    address: Seq<char>,
    behind: Seq<char>,
    prefix: Seq<char>,
)
    requires
        prefix.is_prefix_of(address),
        address.len() > 0,
        forall|k: int|
            0 <= k < address.len() ==> {
                let code = (#[trigger] address[k]) as int;
                48 <= code <= 57 || 65 <= code <= 90 || 97 <= code <= 122
            },
        before.len() > 0 ==> {
            let code = before.last() as int;
            !(48 <= code <= 57 || 65 <= code <= 90 || 97 <= code <= 122)
        },
        behind.len() > 0 ==> {
            let code = behind[0] as int;
            !(48 <= code <= 57 || 65 <= code <= 90 || 97 <= code <= 122)
        },
    ensures
        candidates(before + address + behind, prefix).contains(address),
{
    let s = before + address + behind;
    let (i, j) = (before.len() as int, (before.len() + address.len()) as int);
    law_candidates_are_the_words(s, prefix);
    assert forall|k: int| i <= k < j implies is_word_char(#[trigger] s[k]) by {
        assert(s[k] == address[k - i]);
    }
    assert(s.subrange(i, j) =~= address);
    assert(is_word(s, i, j));
}

/// What is found before a character that is no letter or digit, and what is found behind it, is found
/// in the whole, in this order and as often; and a text of letters and digits alone is found just if
/// it starts with the prefix.
pub proof fn law_candidates_are_found_in_order(
    first: Seq<char>,
    c: char,
    second: Seq<char>,
    prefix: Seq<char>,
)
    requires
        !(48 <= c as int <= 57 || 65 <= c as int <= 90 || 97 <= c as int <= 122),
    ensures
        candidates(first.push(c) + second, prefix) == candidates(first, prefix) + candidates(
            second,
            prefix,
        ),
        candidates(Seq::empty(), prefix).len() == 0,
        first.len() > 0 && (forall|k: int|
            0 <= k < first.len() ==> {
                let code = (#[trigger] first[k]) as int;
                48 <= code <= 57 || 65 <= code <= 90 || 97 <= code <= 122
            }) ==> candidates(first, prefix) == if prefix.is_prefix_of(first) {
            seq![first]
        } else {
            Seq::empty()
        },
{
    lemma_words_before(first, c, second, prefix, 0);
    if first.len() > 0 && (forall|k: int|
        0 <= k < first.len() ==> {
            let code = (#[trigger] first[k]) as int;
            48 <= code <= 57 || 65 <= code <= 90 || 97 <= code <= 122
        }) {
        assert(is_word_char(first[0]));
        lemma_word_end(first, 0);
        let end = word_end(first, 0);
        if end < first.len() {
            assert(is_word_char(first[end]));
        }
        assert(first.subrange(0, end) =~= first);
        assert(words_from(first, prefix, end) =~= Seq::empty());
        assert(candidates(first, prefix) =~= if prefix.is_prefix_of(first) {
            seq![first]
        } else {
            Seq::empty()
        });
    }
}

proof fn lemma_words_before(
    first: Seq<char>,
    c: char,
    second: Seq<char>,
    prefix: Seq<char>,
    i: int,
)
    requires
        0 <= i <= first.len(),
        !is_word_char(c),
    ensures
        words_from(first.push(c) + second, prefix, i) == words_from(first, prefix, i) + words_from(
            second,
            prefix,
            0,
        ),
    decreases first.len() - i,
{
    let s = first.push(c) + second;
    if i == first.len() {
        assert(s[i] == c);
        lemma_words_behind(first.push(c), second, prefix, 0);
        assert(words_from(first, prefix, i) =~= Seq::empty());
        assert(words_from(s, prefix, i) =~= words_from(first, prefix, i) + words_from(
            second,
            prefix,
            0,
        ));
    } else {
        assert(s[i] == first[i]);
        if is_word_char(first[i]) {
            lemma_word_end(first, i);
            lemma_word_end_before(first, c, second, i);
            let end = word_end(first, i);
            lemma_words_before(first, c, second, prefix, end);
            assert(s.subrange(i, end) =~= first.subrange(i, end));
        } else {
            lemma_words_before(first, c, second, prefix, i + 1);
        }
        assert(words_from(s, prefix, i) =~= words_from(first, prefix, i) + words_from(
            second,
            prefix,
            0,
        ));
    }
}

proof fn lemma_word_end_before(first: Seq<char>, c: char, second: Seq<char>, i: int)
    requires
        0 <= i <= first.len(),
        !is_word_char(c),
    ensures
        word_end(first.push(c) + second, i) == word_end(first, i),
    decreases first.len() - i,
{
    let s = first.push(c) + second;
    if i == first.len() {
        assert(s[i] == c);
    } else {
        assert(s[i] == first[i]);
        if is_word_char(first[i]) {
            lemma_word_end_before(first, c, second, i + 1);
        }
    }
}

proof fn lemma_words_behind(front: Seq<char>, second: Seq<char>, prefix: Seq<char>, i: int)
    requires
        0 <= i <= second.len(),
    ensures
        words_from(front + second, prefix, front.len() + i) == words_from(second, prefix, i),
    decreases second.len() - i,
{
    let s = front + second;
    let n = front.len() as int;
    if i < second.len() {
        assert(s[n + i] == second[i]);
        if is_word_char(second[i]) {
            lemma_word_end(second, i);
            lemma_word_end_behind(front, second, i);
            let end = word_end(second, i);
            lemma_words_behind(front, second, prefix, end);
            assert(s.subrange(n + i, n + end) =~= second.subrange(i, end));
        } else {
            lemma_words_behind(front, second, prefix, i + 1);
        }
    }
}

proof fn lemma_word_end_behind(front: Seq<char>, second: Seq<char>, i: int)
    requires
        0 <= i <= second.len(),
    ensures
        word_end(front + second, front.len() + i) == front.len() + word_end(second, i),
    decreases second.len() - i,
{
    let s = front + second;
    if i < second.len() {
        assert(s[front.len() + i] == second[i]);
        if is_word_char(second[i]) {
            lemma_word_end_behind(front, second, i + 1);
        }
    }
}

} // verus!
