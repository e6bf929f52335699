//! What becomes of recipient numbers.
//!
//! The laws of normalization, stated over the characters that a number is
//! written with.

use crate::config::{
    country_digits, international, normalized_number, number_separators,
    number_shaped, without_zero_pairs,
};
use crate::text::{
    ascii_digit, blank, digits, kept, lemma_blank_iff_trimmed_empty, lemma_kept_is_filter,
    lemma_kept_of_trimmed, lemma_strip_back_keeps, lemma_strip_back_is_take,
    lemma_strip_front_is_skip, lemma_trimmed_is_take, lemma_trimmed_of_padded, space, strip_front,
    trimmed, white_space,
};
use vstd::prelude::*;

verus! {

/// The digits in a text, in order.
pub open spec fn digits_in(s: Seq<char>) -> Seq<char> {
    s.filter(|c: char| '0' <= c <= '9')
}

/// A character that may stand in a number: a digit, or one of `+`, `-`, `(`,
/// `)`, `.`, a space and a no-break space.
pub open spec fn may_stand_in_a_number(c: char) -> bool {
    ||| '0' <= c <= '9'
    ||| c == '+'
    ||| c == '-'
    ||| c == '('
    ||| c == ')'
    ||| c == '.'
    ||| c == ' '
    ||| c == '\u{a0}'
}

/// Nothing but characters that may stand in a number, the first of them no
/// space.
pub open spec fn well_written(number: Seq<char>) -> bool {
    &&& number.len() > 0
    &&& number[0] != ' '
    &&& number[0] != '\u{a0}'
    &&& forall|i: int| 0 <= i < number.len() ==> may_stand_in_a_number(#[trigger] number[i])
}

/// The number says that it carries its country code: it is written with a `+`
/// or with `00` in front.
pub open spec fn written_with_prefix(number: Seq<char>) -> bool {
    number[0] == '+' || (number.len() > 1 && number[0] == '0' && number[1] == '0')
}

/// What trimming does to a well-written number.
proof fn lemma_well_written(number: Seq<char>)
    requires
        well_written(number),
    ensures
        trimmed(number).len() > 0,
        number_shaped(trimmed(number)),
        international(trimmed(number)) == written_with_prefix(number),
        kept(trimmed(number), digits()) == digits_in(number),
{
    lemma_trimmed_is_take(number);
    let t = trimmed(number);
    assert forall|i: int| 0 <= i < t.len() implies ascii_digit(#[trigger] t[i])
        || number_separators().contains(t[i]) by {
        assert(t[i] == number[i]);
        assert(may_stand_in_a_number(number[i]));
        let all = number_separators();
        assert(all[0] == '+' && all[1] == '-' && all[2] == ' ' && all[3] == '(' && all[4] == ')'
            && all[5] == '.' && all[6] == '\u{a0}');
    }
    assert(t[0] == number[0]);
    if number.len() > 1 && number[0] == '0' && number[1] == '0' {
        lemma_strip_back_keeps(number, space(), 1);
        assert(t[1] == number[1]);
    }
    if t.len() > 1 {
        assert(t[1] == number[1]);
    }
    lemma_kept_of_trimmed(number, digits());
    lemma_kept_is_filter(number, digits(), |c: char| '0' <= c <= '9');
}

/// White space around a number changes nothing.
pub proof fn lemma_space_around_a_number_changes_nothing(
    country_code: Option<Seq<char>>,
    before: Seq<char>,
    number: Seq<char>,
    after: Seq<char>,
)
    requires
        forall|i: int|
            0 <= i < before.len() ==> (#[trigger] before[i] == ' ' || before[i] == '\t'
                || before[i] == '\n' || before[i] == '\r'),
        forall|i: int|
            0 <= i < after.len() ==> (#[trigger] after[i] == ' ' || after[i] == '\t' || after[i]
                == '\n' || after[i] == '\r'),
    ensures
        normalized_number(country_code, before + number + after) == normalized_number(
            country_code,
            number,
        ),
{
    lemma_trimmed_of_padded(before, number, after);
}

proof fn lemma_without_zero_pairs(s: Seq<char>) -> (zeros: Seq<char>)
    ensures
        s == zeros + without_zero_pairs(s),
        zeros.len() % 2 == 0,
        forall|i: int| 0 <= i < zeros.len() ==> #[trigger] zeros[i] == '0',
        !(without_zero_pairs(s).len() > 1 && without_zero_pairs(s)[0] == '0'
            && without_zero_pairs(s)[1] == '0'),
    decreases s.len(),
{
    if s.len() > 1 && s[0] == '0' && s[1] == '0' {
        let rest = lemma_without_zero_pairs(s.skip(2));
        let zeros = seq!['0', '0'] + rest;
        assert(s =~= seq!['0', '0'] + s.skip(2));
        assert(s =~= zeros + without_zero_pairs(s));
        zeros
    } else {
        assert(s =~= Seq::<char>::empty() + s);
        Seq::empty()
    }
}

/// A number that is written with `+` or `00` in front is taken as it is, without
/// the pairs of zeros that its digits start with: the country code of the
/// account plays no part. It has to be 10 to 15 digits long then.
pub proof fn lemma_a_prefix_is_honoured(
    country_code: Option<Seq<char>>,
    number: Seq<char>,
    zeros: Seq<char>,
    rest: Seq<char>,
)
    requires
        well_written(number),
        written_with_prefix(number),
        digits_in(number) == zeros + rest,
        zeros.len() % 2 == 0,
        forall|i: int| 0 <= i < zeros.len() ==> #[trigger] zeros[i] == '0',
        !(rest.len() > 1 && rest[0] == '0' && rest[1] == '0'),
    ensures
        10 <= rest.len() <= 15 ==> normalized_number(country_code, number) == Ok::<
            Seq<char>,
            Seq<char>,
        >(rest),
        !(10 <= rest.len() <= 15) ==> normalized_number(country_code, number) == Err::<
            Seq<char>,
            Seq<char>,
        >("must be 10-15 digits after normalization"@),
{
    lemma_well_written(number);
    let own = digits_in(number);
    let mine = lemma_without_zero_pairs(own);
    let left = without_zero_pairs(own);
    let a = mine.len() as int;
    let b = zeros.len() as int;
    assert(left == rest) by {
        if a < b {
            assert(own[a] == zeros[a]);
            assert(own[a + 1] == zeros[a + 1]);
            assert(left[0] == own[a]);
            assert(left[1] == own[a + 1]);
        } else if a > b {
            assert(own[b] == mine[b]);
            assert(own[b + 1] == mine[b + 1]);
            assert(rest[0] == own[b]);
            assert(rest[1] == own[b + 1]);
        }
        assert(own.skip(b) =~= rest);
        assert(own.skip(a) =~= left);
    }
}

/// A number written with a leading `+`, whose first digit is no zero, normalizes
/// to exactly its own digits, whatever the country code of the account; written
/// with `00` in front of the same digits it normalizes alike.
pub proof fn lemma_an_international_number_stays_itself(
    country_code: Option<Seq<char>>,
    plus: Seq<char>,
    zeros: Seq<char>,
)
    requires
        well_written(plus),
        plus[0] == '+',
        10 <= digits_in(plus).len() <= 15,
        digits_in(plus)[0] != '0',
        well_written(zeros),
        zeros.len() > 1,
        zeros[0] == '0',
        zeros[1] == '0',
        digits_in(zeros) == seq!['0', '0'] + digits_in(plus),
    ensures
        normalized_number(country_code, plus) == Ok::<Seq<char>, Seq<char>>(digits_in(plus)),
        normalized_number(country_code, zeros) == Ok::<Seq<char>, Seq<char>>(digits_in(plus)),
{
    let own = digits_in(plus);
    assert(own =~= Seq::<char>::empty() + own);
    lemma_a_prefix_is_honoured(country_code, plus, Seq::empty(), own);
    lemma_a_prefix_is_honoured(country_code, zeros, seq!['0', '0'], own);
}

/// The country code of the account makes no difference to a number that is
/// written with a prefix of its own.
pub proof fn lemma_a_prefix_outdoes_the_account(
    one: Option<Seq<char>>,
    other: Option<Seq<char>>,
    number: Seq<char>,
)
    requires
        well_written(number),
        written_with_prefix(number),
    ensures
        normalized_number(one, number) == normalized_number(other, number),
{
    let zeros = lemma_without_zero_pairs(digits_in(number));
    let rest = without_zero_pairs(digits_in(number));
    lemma_a_prefix_is_honoured(one, number, zeros, rest);
    lemma_a_prefix_is_honoured(other, number, zeros, rest);
}

/// A number without a prefix gets the digits of the account's country code in
/// front, unless it starts with them; an account without a country code adds
/// nothing. With that it has to be 10 to 15 digits long.
pub proof fn lemma_a_local_number_gets_the_country_code(
    country_code: Option<Seq<char>>,
    number: Seq<char>,
)
    requires
        well_written(number),
        !written_with_prefix(number),
    ensures
        ({
            let code = match country_code {
                Some(cc) => digits_in(cc),
                None => Seq::empty(),
            };
            let own = digits_in(number);
            let full = if code.len() <= own.len() && own.take(code.len() as int) == code {
                own
            } else {
                code + own
            };
            normalized_number(country_code, number) == (if 10 <= full.len() <= 15 {
                Ok::<Seq<char>, Seq<char>>(full)
            } else {
                Err::<Seq<char>, Seq<char>>("must be 10-15 digits after normalization"@)
            })
        }),
{
    lemma_well_written(number);
    if let Some(cc) = country_code {
        lemma_kept_is_filter(cc, digits(), |c: char| '0' <= c <= '9');
    }
    let code = country_digits(country_code);
    let own = digits_in(number);
    if code.len() <= own.len() {
        assert(own.subrange(0, code.len() as int) =~= own.take(code.len() as int));
    }
}

/// A number with a character that belongs to none, a letter above all, is
/// refused for that, and one that is blank for being empty.
pub proof fn lemma_what_is_no_number_is_refused(
    country_code: Option<Seq<char>>,
    raw: Seq<char>,
    i: int,
)
    ensures
        blank(raw) ==> normalized_number(country_code, raw) == Err::<Seq<char>, Seq<char>>(
            "empty"@,
        ),
        0 <= i < raw.len() && !may_stand_in_a_number(raw[i]) && !white_space(raw[i])
            ==> normalized_number(country_code, raw) == Err::<Seq<char>, Seq<char>>(
            "contains non-numeric characters"@,
        ),
{
    lemma_blank_iff_trimmed_empty(raw);
    if 0 <= i < raw.len() && !may_stand_in_a_number(raw[i]) && !white_space(raw[i]) {
        let front = strip_front(raw, space());
        lemma_strip_front_is_skip(raw, space());
        lemma_strip_back_is_take(front, space());
        lemma_strip_front_keeps(raw, i);
        let k = i - (raw.len() - front.len());
        assert(front[k] == raw[i]);
        lemma_strip_back_keeps(front, space(), k);
        assert(trimmed(raw)[k] == raw[i]);
        assert(!number_separators().contains(raw[i]));
        assert(!blank(raw));
    }
}

proof fn lemma_strip_front_keeps(s: Seq<char>, i: int)
    requires
        0 <= i < s.len(),
        !white_space(s[i]),
    ensures
        s.len() - strip_front(s, space()).len() <= i,
    decreases s.len(),
{
    if white_space(s[0]) {
        assert(i > 0);
        lemma_strip_front_keeps(s.drop_first(), i - 1);
    }
}

} // verus!
