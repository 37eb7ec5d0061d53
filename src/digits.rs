//! The digit expansion of a reference and the mod-97 arithmetic over it.
use vstd::arithmetic::div_mod::lemma_fundamental_div_mod_converse_mod;
use vstd::prelude::*;

verus! {

/// An ASCII decimal digit.
pub open spec fn is_digit(c: char) -> bool {
    '0' <= c && c <= '9'
}

/// An ASCII capital letter.
pub open spec fn is_upper(c: char) -> bool {
    'A' <= c && c <= 'Z'
}

/// An ASCII small letter.
pub open spec fn is_lower(c: char) -> bool {
    'a' <= c && c <= 'z'
}

/// A character that may stand in the body of a reference.
pub open spec fn is_alnum(c: char) -> bool {
    is_digit(c) || is_upper(c) || is_lower(c)
}

/// The value of a letter: 10 for `A` or `a` up to 35 for `Z` or `z`.
pub open spec fn letter_value(c: char) -> int {
    if is_upper(c) {
        c as int - 'A' as int + 10
    } else {
        c as int - 'a' as int + 10
    }
}

/// The decimal digits that one character stands for: a digit for itself, a
/// letter for the two digits of its value.
pub open spec fn char_digits(c: char) -> Seq<i8> {
    if is_digit(c) {
        seq![(c as int - '0' as int) as i8]
    } else {
        seq![(letter_value(c) / 10) as i8, (letter_value(c) % 10) as i8]
    }
}

/// The digits of all characters of `s`, in order.
pub open spec fn digits_of(s: Seq<char>) -> Seq<i8>
    decreases s.len(),
{
    if s.len() == 0 {
        seq![]
    } else {
        digits_of(s.drop_last()) + char_digits(s.last())
    }
}

/// Every entry is a decimal digit.
pub open spec fn all_decimal(d: Seq<i8>) -> bool {
    forall|i: int| 0 <= i < d.len() ==> 0 <= #[trigger] d[i] <= 9
}

/// The number that the digits `d` write, most significant first.
pub open spec fn digits_value(d: Seq<i8>) -> int
    decreases d.len(),
{
    if d.len() == 0 {
        0
    } else {
        digits_value(d.drop_last()) * 10 + d.last() as int
    }
}

/// The value of digits with one more digit at the end.
pub proof fn lemma_value_push(d: Seq<i8>, x: i8)
    ensures
        digits_value(d.push(x)) == digits_value(d) * 10 + x as int,
{
    assert(d.push(x).drop_last() =~= d);
}

/// The remainder of a step of long division does not depend on the quotient
/// carried before it.
pub proof fn lemma_mod_step(a: int, x: int)
    ensures
        (a * 10 + x) % 97 == ((a % 97) * 10 + x) % 97,
{
    let q = a / 97;
    let r = a % 97;
    let t = (r * 10 + x) % 97;
    let u = (r * 10 + x) / 97;
    assert(a == q * 97 + r);
    assert(r * 10 + x == u * 97 + t);
    assert(a * 10 + x == (q * 10 + u) * 97 + t) by (nonlinear_arith)
        requires
            a == q * 97 + r,
            r * 10 + x == u * 97 + t,
    ;
    lemma_fundamental_div_mod_converse_mod(a * 10 + x, 97, q * 10 + u, t);
}

/// The remainder modulo 97 of the number that `d` writes.
pub fn mod97(d: &[i8]) -> (r: u8)
    requires
        all_decimal(d@),
    ensures
        r as int == digits_value(d@) % 97,
{
    let mut acc: u32 = 0;
    let mut i: usize = 0;
    while i < d.len()
        invariant
            i <= d@.len(),
            all_decimal(d@),
            acc < 97,
            acc as int == digits_value(d@.take(i as int)) % 97,
        decreases d@.len() - i,
    {
        let x = d[i];
        proof {
            assert(d@.take(i as int + 1) =~= d@.take(i as int).push(x));
            lemma_value_push(d@.take(i as int), x);
            lemma_mod_step(digits_value(d@.take(i as int)), x as int);
        }
        acc = (acc * 10 + x as u32) % 97;
        i = i + 1;
    }
    assert(d@.take(i as int) =~= d@);
    acc as u8
}

} // verus!
