//! Decimal numbers and words in lines of text.

use vstd::prelude::*;
use vstd::string::{StrSliceExecFns, StringExecFns};

pub mod laws;

verus! {

/// A decimal digit.
pub open spec fn is_digit(c: char) -> bool {
    '0' <= c && c <= '9'
}

/// Value of a decimal digit.
pub open spec fn digit_value(c: char) -> nat {
    (c as int - '0' as int) as nat
}

/// Number that decimal digits stand for, if they all are.
pub open spec fn number_of(digits: Seq<char>) -> Option<nat>
    decreases digits.len(),
{
    if digits.len() == 0 {
        Some(0)
    } else {
        match number_of(digits.drop_last()) {
            Some(n) => if is_digit(digits.last()) {
                Some(10 * n + digit_value(digits.last()))
            } else {
                None
            },
            None => None,
        }
    }
}

/// Digits of a number after an optional plus sign.
pub open spec fn without_plus(text: Seq<char>) -> Seq<char> {
    if text.len() > 0 && text[0] == '+' {
        text.skip(1)
    } else {
        text
    }
}

/// Number of at least one digit, no larger than `max`.
pub open spec fn bounded_number(digits: Seq<char>, max: nat) -> Option<nat> {
    match number_of(digits) {
        Some(n) => if digits.len() > 0 && n <= max {
            Some(n)
        } else {
            None
        },
        None => None,
    }
}

/// Unsigned number no larger than `max` that a text stands for.
pub open spec fn unsigned_of(text: Seq<char>, max: nat) -> Option<nat> {
    bounded_number(without_plus(text), max)
}

/// Signed number that a text stands for.
pub open spec fn signed_of(text: Seq<char>) -> Option<int> {
    if text.len() > 0 && text[0] == '-' {
        match bounded_number(text.skip(1), 0x8000_0000_0000_0000) {
            Some(n) => Some(-(n as int)),
            None => None,
        }
    } else {
        match bounded_number(without_plus(text), 0x7fff_ffff_ffff_ffff) {
            Some(n) => Some(n as int),
            None => None,
        }
    }
}

/// Characters that separate words: those with the Unicode property `White_Space`.
pub open spec fn is_space(c: char) -> bool {
    ||| '\u{9}' <= c && c <= '\u{d}'
    ||| c == '\u{20}' || c == '\u{85}' || c == '\u{a0}' || c == '\u{1680}'
    ||| '\u{2000}' <= c && c <= '\u{200a}'
    ||| c == '\u{2028}' || c == '\u{2029}' || c == '\u{202f}' || c == '\u{205f}' || c
        == '\u{3000}'
}

/// Words of a line: its longest runs without separators, in order.
pub open spec fn words_of(line: Seq<char>) -> Seq<Seq<char>>
    decreases line.len(),
{
    if line.len() == 0 {
        Seq::empty()
    } else {
        let before = words_of(line.drop_last());
        let c = line.last();
        if is_space(c) {
            before
        } else if inside_word(line.drop_last()) {
            before.drop_last().push(before.last().push(c))
        } else {
            before.push(seq![c])
        }
    }
}

/// The line ends within a word.
pub open spec fn inside_word(line: Seq<char>) -> bool {
    line.len() > 0 && !is_space(line.last())
}

/// Contents of words.
pub open spec fn texts(words: Seq<Vec<char>>) -> Seq<Seq<char>> {
    Seq::new(words.len(), |i: int| words[i]@)
}

/// Decimal digits of a number.
pub open spec fn decimal(n: nat) -> Seq<char>
    decreases n,
{
    if n < 10 {
        seq![digit_of(n)]
    } else {
        decimal(n / 10).push(digit_of(n % 10))
    }
}

/// Digit of a number below ten.
pub open spec fn digit_of(n: nat) -> char {
    ('0' as int + n) as char
}

/// Decimal digits of an integer, after a minus sign where it is negative.
pub open spec fn signed_decimal(n: int) -> Seq<char> {
    if n < 0 {
        seq!['-'] + decimal((-n) as nat)
    } else {
        decimal(n as nat)
    }
}

/// Number written and read again.
pub proof fn law_numbers_round_trip(n: nat)
    ensures
        number_of(decimal(n)) == Some(n),
        decimal(n).len() > 0,
        is_digit(decimal(n)[0]),
    decreases n,
{
    if n < 10 {
        let text = decimal(n);
        assert(text.drop_last() =~= Seq::empty());
        assert(number_of(text.drop_last()) == Some(0nat));
    } else {
        law_numbers_round_trip(n / 10);
        let text = decimal(n);
        assert(text.drop_last() =~= decimal(n / 10));
        assert(10 * (n / 10) + n % 10 == n);
    }
}

/// An unsigned number that fits is read back from its decimal digits.
pub proof fn law_unsigned_round_trips(n: nat, max: nat)
    requires
        n <= max,
    ensures
        unsigned_of(decimal(n), max) == Some(n),
{
    law_numbers_round_trip(n);
}

/// A signed number that fits is read back from its decimal digits.
pub proof fn law_signed_round_trips(n: int)
    requires
        -0x8000_0000_0000_0000 <= n <= 0x7fff_ffff_ffff_ffff,
    ensures
        signed_of(signed_decimal(n)) == Some(n),
{
    if n < 0 {
        law_numbers_round_trip((-n) as nat);
        assert(signed_decimal(n).skip(1) =~= decimal((-n) as nat));
    } else {
        law_numbers_round_trip(n as nat);
    }
}

fn read_number(text: &Vec<char>, from: usize, max: u64) -> (r: Option<u64>)
    requires
        from <= text@.len(),
    ensures
        match bounded_number(text@.skip(from as int), max as nat) {
            Some(n) => r == Some(n as u64) && n <= max,
            None => r is None,
        },
{
    let mut n: u64 = 0;
    let mut over: bool = false;
    let mut i: usize = from;
    let ghost digits = text@.skip(from as int);
    assert(digits.take(0) =~= Seq::empty());
    while i < text.len()
        invariant
            from <= i <= text@.len(),
            digits == text@.skip(from as int),
            number_of(digits.take(i - from)) is Some,
            !over ==> number_of(digits.take(i - from)) == Some(n as nat) && n <= max,
            over ==> number_of(digits.take(i - from))->0 > max,
        decreases text@.len() - i,
    {
        let c = text[i];
        proof {
            let more = digits.take(i - from + 1);
            assert(more.drop_last() =~= digits.take(i - from));
            assert(more.last() == c);
        }
        if c < '0' || c > '9' {
            proof {
                lemma_not_a_number(digits, (i - from) as nat);
            }
            return None;
        }
        if !over {
            let digit: u64 = c as u64 - '0' as u64;
            if n > max / 10 || digit > max || 10 * n > max - digit {
                over = true;
            } else {
                n = 10 * n + digit;
            }
        }
        i = i + 1;
    }
    assert(digits.take(i - from) =~= digits);
    if over || from == text.len() {
        None
    } else {
        Some(n)
    }
}

/// One character that is no digit keeps the text from being a number.
proof fn lemma_not_a_number(digits: Seq<char>, at: nat)
    requires
        at < digits.len(),
        !is_digit(digits[at as int]),
    ensures
        number_of(digits) is None,
    decreases digits.len(),
{
    if at < digits.len() - 1 {
        lemma_not_a_number(digits.drop_last(), at);
    }
}

/// Reads an unsigned number no larger than `max`.
pub fn read_unsigned(text: &Vec<char>, max: u64) -> (r: Option<u64>)
    ensures
        match unsigned_of(text@, max as nat) {
            Some(n) => r == Some(n as u64) && n <= max,
            None => r is None,
        },
{
    let from: usize = if text.len() > 0 && text[0] == '+' {
        1
    } else {
        0
    };
    assert(text@.skip(from as int) =~= without_plus(text@));
    read_number(text, from, max)
}

/// Reads a signed number.
pub fn read_signed(text: &Vec<char>) -> (r: Option<i64>)
    ensures
        match signed_of(text@) {
            Some(n) => r == Some(n as i64) && i64::MIN <= n <= i64::MAX,
            None => r is None,
        },
{
    if text.len() > 0 && text[0] == '-' {
        match read_number(text, 1, 0x8000_0000_0000_0000) {
            Some(n) => if n == 0x8000_0000_0000_0000 {
                Some(i64::MIN)
            } else {
                Some(-(n as i64))
            },
            None => None,
        }
    } else {
        match read_unsigned(text, 0x7fff_ffff_ffff_ffff) {
            Some(n) => Some(n as i64),
            None => None,
        }
    }
}

pub(crate) fn separates(c: char) -> (r: bool)
    ensures
        r == is_space(c),
{
    ('\u{9}' <= c && c <= '\u{d}') || c == '\u{20}' || c == '\u{85}' || c == '\u{a0}' || c
        == '\u{1680}' || ('\u{2000}' <= c && c <= '\u{200a}') || c == '\u{2028}' || c == '\u{2029}'
        || c == '\u{202f}' || c == '\u{205f}' || c == '\u{3000}'
}

/// Splits a line into its words.
pub fn split_words(line: &str) -> (r: Vec<Vec<char>>)
    ensures
        texts(r@) == words_of(line@),
{
    let mut words: Vec<Vec<char>> = Vec::new();
    let mut word: Vec<char> = Vec::new();
    let mut i: usize = 0;
    let n: usize = line.unicode_len();
    while i < n
        invariant
            n == line@.len(),
            i <= n,
            (word@.len() > 0) == inside_word(line@.take(i as int)),
            words_of(line@.take(i as int)) == if word@.len() > 0 {
                texts(words@).push(word@)
            } else {
                texts(words@)
            },
        decreases n - i,
    {
        let c = line.get_char(i);
        let ghost before = line@.take(i as int);
        let ghost more = line@.take(i + 1);
        assert(more.drop_last() =~= before);
        assert(more.last() == c);
        if separates(c) {
            if word.len() > 0 {
                let ghost old_words = words@;
                let ghost old_word = word@;
                words.push(word);
                word = Vec::new();
                assert(texts(words@) =~= texts(old_words).push(old_word));
            }
        } else {
            let ghost old_word = word@;
            word.push(c);
            proof {
                if old_word.len() > 0 {
                    let all = texts(words@).push(old_word);
                    assert(all.drop_last() =~= texts(words@));
                } else {
                    assert(word@ =~= seq![c]);
                }
            }
        }
        i = i + 1;
    }
    assert(line@.take(i as int) =~= line@);
    if word.len() > 0 {
        let ghost old_words = words@;
        let ghost old_word = word@;
        words.push(word);
        assert(texts(words@) =~= texts(old_words).push(old_word));
    }
    words
}

/// Returns whether a word is this one.
pub fn is_word(word: &Vec<char>, text: &str) -> (r: bool)
    ensures
        r == (word@ == text@),
{
    if word.len() != text.unicode_len() {
        return false;
    }
    let mut i: usize = 0;
    while i < word.len()
        invariant
            i <= word@.len(),
            word@.len() == text@.len(),
            word@.take(i as int) == text@.take(i as int),
        decreases word@.len() - i,
    {
        if word[i] != text.get_char(i) {
            assert(word@[i as int] != text@[i as int]);
            return false;
        }
        assert(word@.take(i + 1) =~= text@.take(i + 1));
        i = i + 1;
    }
    assert(word@.take(i as int) =~= word@);
    assert(text@.take(i as int) =~= text@);
    true
}

/// Returns whether two texts are the same.
pub fn same_text(a: &str, b: &str) -> (r: bool)
    ensures
        r == (a@ == b@),
{
    let n: usize = a.unicode_len();
    if n != b.unicode_len() {
        return false;
    }
    let mut i: usize = 0;
    while i < n
        invariant
            n == a@.len(),
            n == b@.len(),
            i <= n,
            a@.take(i as int) == b@.take(i as int),
        decreases n - i,
    {
        if a.get_char(i) != b.get_char(i) {
            assert(a@[i as int] != b@[i as int]);
            return false;
        }
        assert(a@.take(i + 1) =~= b@.take(i + 1));
        i = i + 1;
    }
    assert(a@.take(i as int) =~= a@);
    assert(b@.take(i as int) =~= b@);
    true
}

/// Letters of a text.
pub fn letters(text: &str) -> (r: Vec<char>)
    ensures
        r@ == text@,
{
    let n: usize = text.unicode_len();
    let mut letters: Vec<char> = Vec::new();
    let mut i: usize = 0;
    while i < n
        invariant
            n == text@.len(),
            i <= n,
            letters@ == text@.take(i as int),
        decreases n - i,
    {
        letters.push(text.get_char(i));
        assert(letters@ =~= text@.take(i + 1));
        i = i + 1;
    }
    assert(letters@ =~= text@);
    letters
}

/// Appends the digit of a number below ten.
fn append_digit(text: &mut String, n: u64)
    requires
        n < 10,
    ensures
        final(text)@ == old(text)@.push(digit_of(n as nat)),
{
    let digit = match n {
        0 => "0",
        1 => "1",
        2 => "2",
        3 => "3",
        4 => "4",
        5 => "5",
        6 => "6",
        7 => "7",
        8 => "8",
        _ => "9",
    };
    proof {
        reveal_strlit("0");
        reveal_strlit("1");
        reveal_strlit("2");
        reveal_strlit("3");
        reveal_strlit("4");
        reveal_strlit("5");
        reveal_strlit("6");
        reveal_strlit("7");
        reveal_strlit("8");
        reveal_strlit("9");
        assert(digit@ =~= seq![digit_of(n as nat)]);
    }
    text.append(digit);
    assert(text@ =~= old(text)@.push(digit_of(n as nat)));
}

/// Appends the decimal digits of a number.
pub fn append_number(text: &mut String, n: u64)
    ensures
        final(text)@ == old(text)@ + decimal(n as nat),
    decreases n,
{
    if n >= 10 {
        append_number(text, n / 10);
    }
    append_digit(text, n % 10);
    assert(text@ =~= old(text)@ + decimal(n as nat));
}

/// Appends the decimal digits of an integer.
pub fn append_signed(text: &mut String, n: i64)
    ensures
        final(text)@ == old(text)@ + signed_decimal(n as int),
{
    if n < 0 {
        proof {
            reveal_strlit("-");
        }
        text.append("-");
        let magnitude: u64 = if n == i64::MIN {
            0x8000_0000_0000_0000
        } else {
            (-n) as u64
        };
        append_number(text, magnitude);
        assert("-"@ =~= seq!['-']);
        assert(text@ =~= old(text)@ + signed_decimal(n as int));
    } else {
        append_number(text, n as u64);
    }
}

} // verus!
