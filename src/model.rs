//! What a valid reference is, what parsing and generating return, and the
//! laws that tie them together.
use crate::digits::{
    all_decimal, char_digits, digits_of, digits_value, is_alnum, is_digit, lemma_value_push,
};
use crate::parse_error::ParseError;
use crate::text::{
    electronic_of, grouped, has_no_space, lemma_electronic_concat, lemma_electronic_has_no_space,
    lemma_electronic_idempotent, lemma_electronic_of_grouped, lemma_electronic_of_spaceless,
};
use vstd::arithmetic::div_mod::{
    lemma_fundamental_div_mod, lemma_fundamental_div_mod_converse_mod,
};
use vstd::prelude::*;

verus! {

/// Five to twenty-five characters.
pub open spec fn length_ok(e: Seq<char>) -> bool {
    4 < e.len() <= 25
}

/// Starts with the identifier `RF`.
pub open spec fn identifier_ok(e: Seq<char>) -> bool {
    e.len() >= 2 && e[0] == 'R' && e[1] == 'F'
}

/// Every character after the first four is a digit or an ASCII letter.
pub open spec fn body_ok(e: Seq<char>) -> bool {
    forall|i: int| 4 <= i < e.len() ==> is_alnum(#[trigger] e[i])
}

/// Every character is a digit or an ASCII letter.
pub open spec fn all_alnum(e: Seq<char>) -> bool {
    forall|i: int| 0 <= i < e.len() ==> is_alnum(#[trigger] e[i])
}

/// Passes the format checks: length, identifier and body characters.
pub open spec fn well_formed(e: Seq<char>) -> bool {
    length_ok(e) && identifier_ok(e) && body_ok(e)
}

/// The two check digits are decimal digits.
pub open spec fn slot_ok(e: Seq<char>) -> bool {
    e.len() >= 4 && is_digit(e[2]) && is_digit(e[3])
}

/// The body followed by the identifier and check digits: the order in which
/// the checksum reads a reference.
pub open spec fn rotated(e: Seq<char>) -> Seq<char> {
    e.subrange(4, e.len() as int) + e.subrange(0, 4)
}

/// The check-digit sequence of a reference.
pub open spec fn check_digits(e: Seq<char>) -> Seq<i8> {
    digits_of(rotated(e))
}

/// A valid reference in electronic form.
pub open spec fn is_valid_electronic(e: Seq<char>) -> bool {
    well_formed(e) && slot_ok(e) && digits_value(check_digits(e)) % 97 == 1
}

/// The number that the two check digits write.
pub open spec fn checksum_value(e: Seq<char>) -> int {
    (e[2] as int - '0' as int) * 10 + (e[3] as int - '0' as int)
}

/// The print form: identifier and check digits, a space, and the body in
/// groups of four.
pub open spec fn printable_of(e: Seq<char>) -> Seq<char> {
    e.subrange(0, 4) + seq![' '] + grouped(e.subrange(4, e.len() as int))
}

/// What parsing `s` gives: the check digits and the print form, or nothing
/// where `s` is no valid reference.
pub open spec fn reference_model(s: Seq<char>) -> Option<(u8, Seq<char>)> {
    let e = electronic_of(s);
    if is_valid_electronic(e) {
        Some((checksum_value(e) as u8, printable_of(e)))
    } else {
        None
    }
}

/// `err` is what the format checks report on `e`.
pub open spec fn format_error(err: ParseError, e: Seq<char>) -> bool {
    &&& err.message() == e
    &&& match err {
        ParseError::InvalidFormat(_) => !length_ok(e),
        ParseError::InvalidIdentifier(_) => length_ok(e) && !identifier_ok(e),
        ParseError::InvalidCharacter(_) => length_ok(e) && identifier_ok(e) && !body_ok(e),
        ParseError::InvalidChecksum(_) => false,
    }
}

/// `err` is what parsing reports on the electronic form `e`.
pub open spec fn parse_error(err: ParseError, e: Seq<char>) -> bool {
    ||| format_error(err, e)
    ||| (err is InvalidChecksum && err.message() == e && well_formed(e) && !is_valid_electronic(e))
}

/// The identifier followed by the check digits `00`.
pub open spec fn gen_prefix() -> Seq<char> {
    seq!['R', 'F', '0', '0']
}

/// The electronic form that generation starts from: `s` without spaces
/// where it starts with `RF00`, else `RF00` followed by `s` without spaces
/// and without a leading `RF`.
pub open spec fn placeholder_of(s: Seq<char>) -> Seq<char> {
    if s.len() >= 4 && s.take(4) == gen_prefix() {
        electronic_of(s)
    } else if s.len() >= 2 && s.take(2) == seq!['R', 'F'] {
        gen_prefix() + electronic_of(s.subrange(2, s.len() as int))
    } else {
        gen_prefix() + electronic_of(s)
    }
}

/// The check digits that make digits `d`, read with `00` in their place,
/// check.
pub open spec fn checksum_for(d: Seq<i8>) -> int {
    98 - digits_value(d) % 97
}

/// The character of the decimal digit `n`.
pub open spec fn digit_char(n: int) -> char {
    (n + '0' as int) as char
}

/// `e` with the check digits of the number `c` put in place.
pub open spec fn with_checksum(e: Seq<char>, c: int) -> Seq<char> {
    e.update(2, digit_char(c / 10)).update(3, digit_char(c % 10))
}

/// The electronic form that generation produces from `s`.
pub open spec fn generated_of(s: Seq<char>) -> Seq<char> {
    let p = placeholder_of(s);
    with_checksum(p, checksum_for(check_digits(p)))
}

pub proof fn lemma_char_digits_decimal(c: char)
    requires
        is_alnum(c),
    ensures
        all_decimal(char_digits(c)),
{
}

/// The value of the check-digit sequence is the value of the body and
/// identifier, times one hundred, plus the check digits.
pub proof fn lemma_check_value(e: Seq<char>)
    requires
        slot_ok(e),
    ensures
        digits_value(check_digits(e)) == digits_value(
            digits_of(e.subrange(4, e.len() as int) + e.subrange(0, 2)),
        ) * 100 + checksum_value(e),
{
    let r = rotated(e);
    let r1 = e.subrange(4, e.len() as int) + e.subrange(0, 3);
    let r2 = e.subrange(4, e.len() as int) + e.subrange(0, 2);
    assert(r.drop_last() =~= r1);
    assert(r1.drop_last() =~= r2);
    let a = (e[2] as int - '0' as int) as i8;
    let b = (e[3] as int - '0' as int) as i8;
    assert(digits_of(r) == digits_of(r1) + seq![b]);
    assert(digits_of(r1) == digits_of(r2) + seq![a]);
    assert(digits_of(r2) + seq![a] =~= digits_of(r2).push(a));
    assert(digits_of(r1) + seq![b] =~= digits_of(r1).push(b));
    lemma_value_push(digits_of(r2), a);
    lemma_value_push(digits_of(r1), b);
}

/// The placeholder form starts with `RF00` and holds no space.
pub proof fn lemma_placeholder_shape(s: Seq<char>)
    ensures
        placeholder_of(s).len() >= 4,
        placeholder_of(s).take(4) == gen_prefix(),
        has_no_space(placeholder_of(s)),
{
    let p = placeholder_of(s);
    lemma_electronic_of_spaceless(gen_prefix());
    if s.len() >= 4 && s.take(4) == gen_prefix() {
        assert(s =~= s.take(4) + s.subrange(4, s.len() as int));
        lemma_electronic_concat(s.take(4), s.subrange(4, s.len() as int));
        lemma_electronic_has_no_space(s);
        assert(p.take(4) =~= gen_prefix());
    } else if s.len() >= 2 && s.take(2) == seq!['R', 'F'] {
        lemma_electronic_has_no_space(s.subrange(2, s.len() as int));
        assert(p.take(4) =~= gen_prefix());
    } else {
        lemma_electronic_has_no_space(s);
        assert(p.take(4) =~= gen_prefix());
    }
}

/// Generation always ends in a valid reference once the placeholder form
/// passes the format checks; the check digits are those of `checksum_for`.
pub proof fn lemma_generated_valid(s: Seq<char>)
    requires
        well_formed(placeholder_of(s)),
    ensures
        is_valid_electronic(generated_of(s)),
        has_no_space(generated_of(s)),
        checksum_value(generated_of(s)) == checksum_for(check_digits(placeholder_of(s))),
        2 <= checksum_for(check_digits(placeholder_of(s))) <= 98,
{
    let p = placeholder_of(s);
    lemma_placeholder_shape(s);
    assert(p[2] == gen_prefix()[2] && p[3] == gen_prefix()[3]);
    let c = checksum_for(check_digits(p));
    let g = generated_of(s);
    let v = digits_value(check_digits(p));
    lemma_fundamental_div_mod(v, 97);
    assert(2 <= c <= 98);
    assert(g.subrange(4, g.len() as int) + g.subrange(0, 2) =~= p.subrange(4, p.len() as int)
        + p.subrange(0, 2));
    lemma_check_value(p);
    assert(checksum_value(p) == 0);
    assert(checksum_value(g) == c);
    lemma_check_value(g);
    lemma_fundamental_div_mod_converse_mod(digits_value(check_digits(g)), 97, v / 97 + 1, 1);
    assert forall|i: int| 0 <= i < g.len() implies #[trigger] g[i] != ' ' by {
        if i != 2 && i != 3 {
            assert(g[i] == p[i]);
        }
    }
    assert forall|i: int| 4 <= i < g.len() implies is_alnum(#[trigger] g[i]) by {
        assert(g[i] == p[i]);
    }
}

/// The electronic form of a valid reference's print form is the electronic
/// form of the reference itself.
pub proof fn lemma_electronic_of_printable(e: Seq<char>)
    requires
        e.len() >= 4,
        has_no_space(e),
    ensures
        electronic_of(printable_of(e)) == e,
{
    let head = e.subrange(0, 4);
    let body = e.subrange(4, e.len() as int);
    lemma_electronic_concat(head + seq![' '], grouped(body));
    lemma_electronic_concat(head, seq![' ']);
    lemma_electronic_of_grouped(body);
    lemma_electronic_of_spaceless(head);
    lemma_electronic_of_spaceless(body);
    let space = seq![' '];
    assert(space.drop_last() =~= Seq::<char>::empty());
    assert(space.last() == ' ');
    assert(electronic_of(space) == electronic_of(Seq::<char>::empty()));
    assert(electronic_of(space) =~= Seq::<char>::empty());
    assert(head + Seq::<char>::empty() + body =~= e);
}

/// Round trip: a valid reference parses the same from its print form and
/// from its electronic form, with the same check digits and print form as
/// the string it was first parsed from.
pub proof fn lemma_round_trip(s: Seq<char>)
    requires
        reference_model(s) is Some,
    ensures
        ({
            let p = reference_model(s)->Some_0.1;
            &&& reference_model(p) == reference_model(s)
            &&& reference_model(electronic_of(p)) == reference_model(s)
        }),
{
    let e = electronic_of(s);
    lemma_electronic_has_no_space(s);
    lemma_electronic_of_printable(e);
    lemma_electronic_idempotent(s);
}

/// Generation then parsing: where generation succeeds, parsing the
/// electronic form of its result gives it back, with the same check digits.
pub proof fn lemma_generate_then_parse(s: Seq<char>)
    requires
        well_formed(placeholder_of(s)),
    ensures
        reference_model(generated_of(s)) is Some,
        ({
            let m = reference_model(generated_of(s))->Some_0;
            &&& m.0 as int == checksum_for(check_digits(placeholder_of(s)))
            &&& reference_model(electronic_of(m.1)) == Some(m)
        }),
{
    let g = generated_of(s);
    lemma_generated_valid(s);
    lemma_electronic_of_spaceless(g);
    lemma_round_trip(g);
}

/// Every reference that parses has a check-digit sequence whose value
/// leaves 1 modulo 97.
pub proof fn lemma_parsed_checks(s: Seq<char>)
    requires
        reference_model(s) is Some,
    ensures
        digits_value(check_digits(electronic_of(s))) % 97 == 1,
{
}

} // verus!
