//! What the text helpers do, said of the characters themselves.
use crate::text::begins_with;
use crate::text::chars_of;
use crate::text::decimal;
use crate::text::decimal_reads_back;
use crate::text::decimal_text;
use crate::text::digits_value;
use crate::text::ends_in;
use crate::text::has_suffix;
use crate::text::is_digit;
use crate::text::is_white_space;
use crate::text::parse_u16;
use crate::text::parse_u32;
use crate::text::parse_u64;
use crate::text::parsed;
use crate::text::same_text;
use crate::text::strip_prefix;
use crate::text::trim;
use crate::text::trimmed;
use crate::text::trimmed_back;
use crate::text::trimmed_front;
use crate::text::unsigned_part;
use crate::text::white_space;
use vstd::prelude::*;

verus! {

/// White space is what Unicode calls so: these code points, and no others.
pub proof fn white_space_by_code_point(c: char)
    ensures
        white_space(c) <==> {
            let n = c as int;
            ||| 9 <= n <= 13
            ||| n == 32
            ||| n == 133
            ||| n == 160
            ||| n == 5760
            ||| 8192 <= n <= 8202
            ||| n == 8232
            ||| n == 8233
            ||| n == 8239
            ||| n == 8287
            ||| n == 12288
        },
{
}

proof fn front_is_cut(s: Seq<char>) -> (cut: int)
    ensures
        0 <= cut <= s.len(),
        trimmed_front(s) == s.skip(cut),
        forall|i: int| 0 <= i < cut ==> white_space(#[trigger] s[i]),
        cut < s.len() ==> !white_space(s[cut]),
    decreases s.len(),
{
    if s.len() > 0 && white_space(s.first()) {
        let rest = s.drop_first();
        let cut = front_is_cut(rest);
        assert(rest.skip(cut) =~= s.skip(cut + 1));
        assert forall|i: int| 0 <= i < cut + 1 implies white_space(#[trigger] s[i]) by {
            if i > 0 {
                assert(s[i] == rest[i - 1]);
            }
        }
        if cut + 1 < s.len() {
            assert(s[cut + 1] == rest[cut]);
        }
        cut + 1
    } else {
        assert(s.skip(0) =~= s);
        0
    }
}

proof fn back_is_cut(s: Seq<char>) -> (cut: int)
    ensures
        0 <= cut <= s.len(),
        trimmed_back(s) == s.take(cut),
        forall|i: int| cut <= i < s.len() ==> white_space(#[trigger] s[i]),
        cut > 0 ==> !white_space(s[cut - 1]),
    decreases s.len(),
{
    if s.len() > 0 && white_space(s.last()) {
        let rest = s.drop_last();
        let cut = back_is_cut(rest);
        assert(rest.take(cut) =~= s.take(cut));
        assert forall|i: int| cut <= i < s.len() implies white_space(#[trigger] s[i]) by {
            if i < rest.len() {
                assert(s[i] == rest[i]);
            }
        }
        if cut > 0 {
            assert(s[cut - 1] == rest[cut - 1]);
        }
        cut
    } else {
        assert(s.take(s.len() as int) =~= s);
        s.len() as int
    }
}

/// Trimming takes off white space, all of it at either end, and nothing else:
/// what is left is a part of the text, with only white space before and behind
/// it, and begins and ends with something else. So nothing is left exactly if
/// there was nothing but white space.
pub proof fn trimming_takes_off_white_space_alone(s: Seq<char>)
    ensures
        exists|a: int, b: int|
            {
                &&& 0 <= a <= b <= s.len()
                &&& trimmed(s) == #[trigger] s.subrange(a, b)
                &&& forall|i: int| 0 <= i < a ==> white_space(#[trigger] s[i])
                &&& forall|i: int| b <= i < s.len() ==> white_space(#[trigger] s[i])
                &&& a < b ==> !white_space(s[a]) && !white_space(s[b - 1])
            },
        trimmed(s).len() == 0 <==> forall|i: int|
            0 <= i < s.len() ==> white_space(#[trigger] s[i]),
{
    let a = front_is_cut(s);
    let front = s.skip(a);
    let cut = back_is_cut(front);
    let b = a + cut;
    assert(front.take(cut) =~= s.subrange(a, b));
    assert forall|i: int| b <= i < s.len() implies white_space(#[trigger] s[i]) by {
        assert(s[i] == front[i - a]);
    }
    if a < b {
        assert(s[b - 1] == front[cut - 1]);
        assert(s[a] == front[0]);
    }
    assert(trimmed(s) == s.subrange(a, b));
    if trimmed(s).len() > 0 {
        assert(!white_space(s[a]));
    }
}

/// A text begins with another exactly if it is that one with something behind it.
pub proof fn beginning_is_a_prefix(s: Seq<char>, prefix: Seq<char>)
    ensures
        begins_with(s, prefix) <==> exists|rest: Seq<char>| s == #[trigger] (prefix + rest),
{
    if begins_with(s, prefix) {
        let rest = s.skip(prefix.len() as int);
        assert(s =~= prefix + rest);
    }
    if exists|rest: Seq<char>| s == #[trigger] (prefix + rest) {
        let rest = choose|rest: Seq<char>| s == #[trigger] (prefix + rest);
        assert(s.take(prefix.len() as int) =~= prefix);
    }
}

/// A text ends with another exactly if it is that one with something before it.
pub proof fn ending_is_a_suffix(s: Seq<char>, suffix: Seq<char>)
    ensures
        ends_in(s, suffix) <==> exists|rest: Seq<char>| s == #[trigger] (rest + suffix),
{
    if ends_in(s, suffix) {
        let rest = s.take(s.len() - suffix.len());
        assert(s =~= rest + suffix);
    }
    if exists|rest: Seq<char>| s == #[trigger] (rest + suffix) {
        let rest = choose|rest: Seq<char>| s == #[trigger] (rest + suffix);
        assert(s.skip(s.len() - suffix.len()) =~= suffix);
    }
}

/// Only digits read as a number, at least one of them, with a plus sign before
/// them or not.
pub proof fn only_digits_read(s: Seq<char>, max: nat)
    ensures
        parsed(s, max) is Some ==> s.len() > 0 && forall|i: int|
            0 <= i < s.len() ==> ('0' <= #[trigger] s[i] <= '9') || (i == 0 && s[0] == '+'
                && s.len() > 1),
{
    if parsed(s, max) is Some {
        let digits = unsigned_part(s);
        assert forall|i: int| 0 <= i < s.len() implies ('0' <= #[trigger] s[i] <= '9') || (i == 0
            && s[0] == '+' && s.len() > 1) by {
            if s.first() == '+' {
                if i > 0 {
                    assert(is_digit(digits[i - 1]));
                }
            } else {
                assert(is_digit(digits[i]));
            }
        }
    }
}

/// One digit reads as the number it stands for, and one more digit behind others
/// as ten times their number and that one; unless that is too much.
pub proof fn digits_read_in_tens(digits: Seq<char>, c: char, value: nat, max: nat)
    requires
        '0' <= c <= '9',
        digits.len() > 0,
        forall|i: int| 0 <= i < digits.len() ==> '0' <= #[trigger] digits[i] <= '9',
        parsed(digits, value) == Some(value),
    ensures
        ({
            let one = (c as int - 48) as nat;
            parsed(seq![c], max) == if one <= max {
                Some(one)
            } else {
                None
            }
        }),
        ({
            let more = (10 * value + (c as int - 48)) as nat;
            parsed(digits.push(c), max) == if more <= max {
                Some(more)
            } else {
                None
            }
        }),
{
    reveal_with_fuel(digits_value, 2);
    assert(seq![c].drop_last() =~= Seq::<char>::empty());
    assert(digits.first() != '+');
    let all = digits.push(c);
    assert(all.drop_last() =~= digits);
    assert(all.first() == digits.first());
    assert forall|i: int| 0 <= i < all.len() implies is_digit(#[trigger] all[i]) by {
        if i < digits.len() {
            assert('0' <= digits[i] <= '9');
        }
    }
    assert(is_digit(seq![c][0]));
    assert(unsigned_part(seq![c]) == seq![c]);
    assert(unsigned_part(all) == all);
}

/// Every row of digits reads as some number, if there is room for it.
pub proof fn every_row_of_digits_reads(digits: Seq<char>) -> (value: nat)
    requires
        digits.len() > 0,
        forall|i: int| 0 <= i < digits.len() ==> '0' <= #[trigger] digits[i] <= '9',
    ensures
        parsed(digits, value) == Some(value),
{
    assert(digits.first() != '+');
    assert forall|i: int| 0 <= i < digits.len() implies is_digit(#[trigger] digits[i]) by {
        assert('0' <= digits[i] <= '9');
    }
    digits_value(digits)
}

/// A plus sign before digits makes no difference.
pub proof fn plus_sign_makes_no_difference(digits: Seq<char>, max: nat)
    requires
        digits.len() > 0,
        digits[0] != '+',
    ensures
        parsed(seq!['+'] + digits, max) == parsed(digits, max),
{
    assert((seq!['+'] + digits).drop_first() =~= digits);
}

/// What a text reads as does not depend on the bound, as long as it is within it.
pub proof fn bound_only_rules_out(s: Seq<char>, max: nat, other: nat, value: nat)
    requires
        parsed(s, max) == Some(value),
    ensures
        value <= max,
        parsed(s, other) == if value <= other {
            Some(value)
        } else {
            None
        },
{
}

/// A number is written with digits alone, without a zero in front unless it is
/// zero, and reads back as itself.
pub proof fn numbers_are_written_plainly(n: nat)
    ensures
        decimal(n).len() > 0,
        forall|i: int| 0 <= i < decimal(n).len() ==> '0' <= #[trigger] decimal(n)[i] <= '9',
        n > 0 ==> decimal(n)[0] != '0',
        decimal(0) == seq!['0'],
        parsed(decimal(n), n) == Some(n),
    decreases n,
{
    decimal_reads_back(n);
    assert forall|i: int| 0 <= i < decimal(n).len() implies '0' <= #[trigger] decimal(n)[i]
        <= '9' by {
        assert(is_digit(decimal(n)[i]));
    }
    if n >= 10 {
        numbers_are_written_plainly(n / 10);
        assert(decimal(n)[0] == decimal(n / 10)[0]);
    }
}

/// What the helpers give is what is said of texts here.
pub proof fn helpers_keep_their_word(
    s: &str,
    t: &str,
    c: char,
    n: u64,
    chars: Vec<char>,
    same: bool,
    rest: Option<&str>,
    ends: bool,
    white: bool,
    bare: &str,
    number: Option<u64>,
    shorter: Option<u32>,
    shortest: Option<u16>,
    written: String,
)
    requires
        call_ensures(chars_of, (s,), chars),
        call_ensures(same_text, (s, t), same),
        call_ensures(strip_prefix, (s, t), rest),
        call_ensures(has_suffix, (s, t), ends),
        call_ensures(is_white_space, (c,), white),
        call_ensures(trim, (s,), bare),
        call_ensures(parse_u64, (s,), number),
        call_ensures(parse_u32, (s,), shorter),
        call_ensures(parse_u16, (s,), shortest),
        call_ensures(decimal_text, (n,), written),
    ensures
        chars@ == s@,
        same <==> s@ == t@,
        rest is Some <==> begins_with(s@, t@),
        rest is Some ==> s@ == t@ + rest->0@,
        ends <==> ends_in(s@, t@),
        white <==> white_space(c),
        bare@ == trimmed(s@),
        number is Some <==> parsed(s@, 0xffff_ffff_ffff_ffff) is Some,
        number is Some ==> parsed(s@, 0xffff_ffff_ffff_ffff) == Some(number->0 as nat),
        shorter is Some <==> parsed(s@, 0xffff_ffff) is Some,
        shorter is Some ==> parsed(s@, 0xffff_ffff) == Some(shorter->0 as nat),
        shortest is Some <==> parsed(s@, 0xffff) is Some,
        shortest is Some ==> parsed(s@, 0xffff) == Some(shortest->0 as nat),
        written@ == decimal(n as nat),
{
    if rest is Some {
        assert(s@ =~= t@ + rest->0@);
    }
}

} // verus!
