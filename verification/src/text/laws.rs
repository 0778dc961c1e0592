//! What numbers and words in a text are.

use vstd::prelude::*;

use crate::text::{
    decimal, is_digit, is_space, letters, number_of, read_signed, read_unsigned, same_text,
    signed_decimal, signed_of, split_words, texts, unsigned_of, words_of,
};

verus! {

/// A number is written digit by digit: the last digit is its remainder by ten, in front of it stands
/// the number of tens, and a number below ten is one digit. No number but zero begins with a zero.
pub proof fn law_decimal_is_positional(n: nat)
    ensures
        n < 10 ==> decimal(n).len() == 1 && decimal(n)[0] as int == 48 + n,
        n >= 10 ==> decimal(n).last() as int == 48 + n % 10 && decimal(n).drop_last() == decimal(
            n / 10,
        ),
        n > 0 ==> decimal(n)[0] != '0',
        forall|i: int| 0 <= i < decimal(n).len() ==> 48 <= (#[trigger] decimal(n)[i]) as int <= 57,
    decreases n,
{
    if n >= 10 {
        law_decimal_is_positional(n / 10);
        let rest = decimal(n / 10);
        assert(decimal(n).drop_last() =~= rest);
        assert(rest.len() > 0);
        assert forall|i: int| 0 <= i < decimal(n).len() implies 48 <= (#[trigger] decimal(n)[i]) as int
            <= 57 by {
            if i < rest.len() {
                assert(decimal(n)[i] == rest[i]);
            }
        }
        assert(decimal(n)[0] == rest[0]);
    }
}

/// A negative number is written as its opposite behind a minus sign, any other as its digits.
pub proof fn law_sign_stands_in_front(n: int)
    ensures
        n < 0 ==> signed_decimal(n)[0] == '-' && signed_decimal(n).skip(1) == signed_decimal(-n),
        n >= 0 ==> signed_decimal(n) == decimal(n as nat) && signed_decimal(n)[0] != '-',
{
    if n < 0 {
        assert(signed_decimal(n).skip(1) =~= decimal((-n) as nat));
    } else {
        law_decimal_is_positional(n as nat);
        crate::text::law_numbers_round_trip(n as nat);
    }
}

/// A text of digits stands for ten times what all but its last digit stand for, and that digit. A text
/// with anything else in it is no number.
pub proof fn law_digits_add_up(digits: Seq<char>, c: char)
    ensures
        number_of(Seq::<char>::empty()) == Some(0nat),
        number_of(digits) is Some && 48 <= c as int <= 57 ==> number_of(digits.push(c)) is Some
            && number_of(digits.push(c))->0 == 10 * number_of(digits)->0 + (c as int - 48),
        number_of(digits.push(c)) is Some ==> number_of(digits) is Some && 48 <= c as int <= 57,
{
    assert(digits.push(c).drop_last() =~= digits);
}

/// An unsigned number is read from at least one digit, behind one plus sign or none, and only where it
/// does not exceed the bound.
pub proof fn law_unsigned_numbers_are_read(text: Vec<char>, max: u64, r: Option<u64>)
    requires
        call_ensures(read_unsigned, (&text, max), r),
    ensures
        ({
            let digits = if text@.len() > 0 && text@[0] == '+' {
                text@.skip(1)
            } else {
                text@
            };
            &&& r is Some <==> digits.len() > 0 && number_of(digits) is Some && number_of(digits)->0
                <= max
            &&& r is Some ==> r->0 as nat == number_of(digits)->0
        }),
{
}

/// A signed number is read as an unsigned one is, or behind a minus sign as its opposite, within the
/// range of 64 bits.
pub proof fn law_signed_numbers_are_read(text: Vec<char>, r: Option<i64>)
    requires
        call_ensures(read_signed, (&text,), r),
    ensures
        text@.len() > 0 && text@[0] == '-' ==> {
            let digits = text@.skip(1);
            &&& r is Some <==> digits.len() > 0 && number_of(digits) is Some && number_of(digits)->0
                <= 0x8000_0000_0000_0000
            &&& r is Some ==> r->0 as int == -number_of(digits)->0
        },
        !(text@.len() > 0 && text@[0] == '-') ==> {
            &&& r is Some <==> unsigned_of(text@, 0x7fff_ffff_ffff_ffff) is Some
            &&& r is Some ==> r->0 as int == unsigned_of(text@, 0x7fff_ffff_ffff_ffff)->0
        },
        r is Some <==> signed_of(text@) is Some,
{
}

/// Words hold every character of the line that is no separator, and no other, in order.
pub proof fn law_words_hold_the_letters(line: Seq<char>)
    ensures
        words_of(line).flatten() == line.filter(|c: char| !is_space(c)),
        forall|i: int| 0 <= i < words_of(line).len() ==> (#[trigger] words_of(line)[i]).len() > 0,
        line.len() > 0 && !is_space(line.last()) ==> words_of(line).len() > 0,
    decreases line.len(),
{
    reveal(Seq::filter);
    let visible = |c: char| !is_space(c);
    if line.len() > 0 {
        let rest = line.drop_last();
        let before = words_of(rest);
        let c = line.last();
        law_words_hold_the_letters(rest);
        if is_space(c) {
        } else if crate::text::inside_word(rest) {
            let head = before.drop_last();
            lemma_flatten_push(head, before.last());
            lemma_flatten_push(head, before.last().push(c));
            assert(head.push(before.last()) =~= before);
            assert(words_of(line).flatten() =~= before.flatten().push(c));
        } else {
            lemma_flatten_push(before, seq![c]);
            assert(words_of(line).flatten() =~= before.flatten().push(c));
        }
    }
}

proof fn lemma_flatten_push(words: Seq<Seq<char>>, word: Seq<char>)
    ensures
        words.push(word).flatten() == words.flatten() + word,
    decreases words.len(),
{
    if words.len() == 0 {
        assert(words.push(word).drop_first() =~= Seq::<Seq<char>>::empty());
        assert(Seq::<Seq<char>>::empty().flatten() =~= Seq::<char>::empty());
        assert(words.push(word)[0] == word);
        assert(words.push(word).flatten() =~= word);
        assert(words =~= Seq::<Seq<char>>::empty());
        assert(words.flatten() + word =~= word);
    } else {
        let rest = words.drop_first();
        lemma_flatten_push(rest, word);
        assert(words.push(word).drop_first() =~= rest.push(word));
        assert(words.push(word).flatten() =~= words.flatten() + word);
    }
}

/// A separator ends a word: what stands behind it is another word, or none.
pub proof fn law_separators_part_words(line: Seq<char>, gap: char, c: char)
    requires
        is_space(gap),
        !is_space(c),
    ensures
        words_of(line.push(gap)) == words_of(line),
        words_of(line.push(gap).push(c)) == words_of(line).push(seq![c]),
{
    assert(line.push(gap).drop_last() =~= line);
    assert(words_of(line.push(gap)) == words_of(line));
    assert(!crate::text::inside_word(line.push(gap)));
    assert(line.push(gap).push(c).drop_last() =~= line.push(gap));
    assert(line.push(gap).push(c).last() == c);
}

/// A line is split into its words, and two texts are the same where their letters are.
pub proof fn law_texts_are_compared(
    a: &str,
    b: &str,
    same: bool,
    words: Vec<Vec<char>>,
    spelled: Vec<char>,
)
    requires
        call_ensures(same_text, (a, b), same),
        call_ensures(split_words, (a,), words),
        call_ensures(letters, (a,), spelled),
    ensures
        same <==> a@ == b@,
        words@.len() == words_of(a@).len(),
        forall|i: int| 0 <= i < words@.len() ==> (#[trigger] words@[i])@ == words_of(a@)[i],
        spelled@ == a@,
{
    assert forall|i: int| 0 <= i < words@.len() implies (#[trigger] words@[i])@ == words_of(
        a@,
    )[i] by {
        assert(texts(words@)[i] == words@[i]@);
    }
}

/// Digits are the ten characters from zero to nine; the separators are the Unicode white space.
pub proof fn law_characters_are_told_apart(c: char)
    ensures
        is_digit(c) <==> 48 <= c as int <= 57,
        is_space(c) <==> 9 <= c as int <= 13 || c as int == 32 || c as int == 133 || c as int == 160
            || c as int == 5760 || 8192 <= c as int <= 8202 || c as int == 8232 || c as int == 8233
            || c as int == 8239 || c as int == 8287 || c as int == 12288,
{
}

} // verus!
