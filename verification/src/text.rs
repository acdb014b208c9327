//! Small verified text helpers: appending one character, and rendering an
//! unsigned number as its decimal numeral.

use vstd::prelude::*;

verus! {

/// Relies on `String::push`: appends the given character to the end of the
/// string and changes nothing else.
#[verifier::external_body]
pub(crate) fn push_char(s: &mut String, c: char)
    ensures
        final(s)@ == old(s)@.push(c),
{
    s.push(c);
}

/// The decimal digit character for `d` in `0..=9`.
pub open spec fn digit_char(d: int) -> char
    recommends
        0 <= d <= 9,
{
    if d == 0 {
        '0'
    } else if d == 1 {
        '1'
    } else if d == 2 {
        '2'
    } else if d == 3 {
        '3'
    } else if d == 4 {
        '4'
    } else if d == 5 {
        '5'
    } else if d == 6 {
        '6'
    } else if d == 7 {
        '7'
    } else if d == 8 {
        '8'
    } else {
        '9'
    }
}

/// The decimal numeral of `n`, most significant digit first, no sign and no
/// leading zeros (a single `'0'` for zero).
pub open spec fn dec_digits(n: int) -> Seq<char>
    recommends
        n >= 0,
    decreases n,
{
    if n <= 9 {
        seq![digit_char(n)]
    } else {
        dec_digits(n / 10) + seq![digit_char(n % 10)]
    }
}

/// Whether `c` is one of the ten decimal digit characters.
pub open spec fn is_decimal_digit(c: char) -> bool {
    c == '0' || c == '1' || c == '2' || c == '3' || c == '4' || c == '5' || c == '6' || c == '7'
        || c == '8' || c == '9'
}

/// A numeral is never empty and holds digit characters only.
pub proof fn lemma_dec_digits_are_digits(n: int)
    requires
        n >= 0,
    ensures
        dec_digits(n).len() >= 1,
        forall|k: int|
            0 <= k < dec_digits(n).len() ==> is_decimal_digit(#[trigger] dec_digits(n)[k]),
    decreases n,
{
    if n > 9 {
        lemma_dec_digits_are_digits(n / 10);
        assert forall|k: int| 0 <= k < dec_digits(n).len() implies is_decimal_digit(
            #[trigger] dec_digits(n)[k],
        ) by {
            if k < dec_digits(n / 10).len() {
                assert(dec_digits(n)[k] == dec_digits(n / 10)[k]);
            } else {
                assert(dec_digits(n)[k] == digit_char(n % 10));
            }
        }
    }
}

/// Equal numerals come from equal numbers.
pub proof fn lemma_dec_digits_injective(a: int, b: int)
    requires
        a >= 0,
        b >= 0,
        dec_digits(a) == dec_digits(b),
    ensures
        a == b,
    decreases a,
{
    lemma_dec_digits_are_digits(a);
    lemma_dec_digits_are_digits(b);
    if a <= 9 && b <= 9 {
        assert(dec_digits(a)[0] == digit_char(a));
        assert(dec_digits(b)[0] == digit_char(b));
    } else if a <= 9 {
        lemma_dec_digits_are_digits(b / 10);
        assert(dec_digits(b).len() >= 2);
    } else if b <= 9 {
        lemma_dec_digits_are_digits(a / 10);
        assert(dec_digits(a).len() >= 2);
    } else {
        assert(dec_digits(a).drop_last() =~= dec_digits(a / 10));
        assert(dec_digits(b).drop_last() =~= dec_digits(b / 10));
        assert(dec_digits(a).last() == digit_char(a % 10));
        assert(dec_digits(b).last() == digit_char(b % 10));
        assert(a % 10 == b % 10);
        lemma_dec_digits_injective(a / 10, b / 10);
        assert(a == 10 * (a / 10) + a % 10);
        assert(b == 10 * (b / 10) + b % 10);
    }
}

/// A numeral followed by a non-digit is parsed in only one way: equal
/// concatenations split at the same place.
pub proof fn lemma_dec_digits_delimited(a: int, b: int, s1: Seq<char>, s2: Seq<char>)
    requires
        a >= 0,
        b >= 0,
        s1.len() >= 1,
        s2.len() >= 1,
        !is_decimal_digit(s1[0]),
        !is_decimal_digit(s2[0]),
        dec_digits(a) + s1 == dec_digits(b) + s2,
    ensures
        a == b,
        s1 == s2,
{
    lemma_dec_digits_are_digits(a);
    lemma_dec_digits_are_digits(b);
    let la = dec_digits(a).len() as int;
    let lb = dec_digits(b).len() as int;
    if la < lb {
        assert((dec_digits(a) + s1)[la] == s1[0]);
        assert((dec_digits(b) + s2)[la] == dec_digits(b)[la]);
        assert(false);
    }
    if lb < la {
        assert((dec_digits(a) + s1)[lb] == dec_digits(a)[lb]);
        assert((dec_digits(b) + s2)[lb] == s2[0]);
        assert(false);
    }
    assert(dec_digits(a) =~= (dec_digits(a) + s1).take(la));
    assert(dec_digits(b) =~= (dec_digits(b) + s2).take(la));
    lemma_dec_digits_injective(a, b);
    assert(s1 =~= (dec_digits(a) + s1).skip(la));
    assert(s2 =~= (dec_digits(b) + s2).skip(la));
}

/// The digit character for one digit value.
fn digit_to_char(d: u32) -> (c: char)
    requires
        d <= 9,
    ensures
        c == digit_char(d as int),
{
    match d {
        0 => '0',
        1 => '1',
        2 => '2',
        3 => '3',
        4 => '4',
        5 => '5',
        6 => '6',
        7 => '7',
        8 => '8',
        _ => '9',
    }
}

/// Renders `n` as its decimal numeral.
pub fn u32_to_string(n: u32) -> (r: String)
    ensures
        r@ == dec_digits(n as int),
    decreases n,
{
    if n <= 9 {
        let mut s = String::new();
        push_char(&mut s, digit_to_char(n));
        proof {
            assert(s@ =~= dec_digits(n as int));
        }
        s
    } else {
        let mut s = u32_to_string(n / 10);
        push_char(&mut s, digit_to_char(n % 10));
        proof {
            assert(s@ =~= dec_digits(n as int));
        }
        s
    }
}

} // verus!
