//! The validated creditor reference and its two ways in: parsing and
//! generation.
use crate::digits::{all_decimal, char_digits, digits_of, digits_value, is_alnum, mod97};
use crate::model::{
    all_alnum, body_ok, check_digits, checksum_for, digit_char, format_error, gen_prefix,
    generated_of, identifier_ok, lemma_char_digits_decimal, lemma_generated_valid,
    lemma_placeholder_shape, lemma_round_trip, length_ok, parse_error, placeholder_of, printable_of,
    reference_model, rotated, well_formed,
};
use crate::parse_error::ParseError;
use crate::text::{
    chars_of, electronic_of, grouped_from, has_no_space, lemma_electronic_has_no_space,
    lemma_electronic_of_spaceless, string_of, strip_spaces,
};
use vstd::prelude::*;

verus! {

/// Appends the digits of `c` to `d`; false, with `d` unchanged, where `c` is
/// neither a digit nor an ASCII letter.
fn push_char_digits(c: char, d: &mut Vec<i8>) -> (ok: bool)
    ensures
        ok == is_alnum(c),
        ok ==> final(d)@ == old(d)@ + char_digits(c),
        !ok ==> final(d)@ == old(d)@,
{
    if '0' <= c && c <= '9' {
        d.push((c as u32 - '0' as u32) as i8);
        assert(final(d)@ =~= old(d)@ + char_digits(c));
        true
    } else if ('A' <= c && c <= 'Z') || ('a' <= c && c <= 'z') {
        let base: u32 = if 'A' <= c && c <= 'Z' {
            'A' as u32
        } else {
            'a' as u32
        };
        let n: u32 = c as u32 - base + 10;
        d.push((n / 10) as i8);
        d.push((n % 10) as i8);
        assert(final(d)@ =~= old(d)@ + char_digits(c));
        true
    } else {
        false
    }
}

/// The check-digit sequence of `e`, or `InvalidCharacter` where a character
/// of `e` is neither a digit nor an ASCII letter.
fn expand(e: &[char]) -> (r: Result<Vec<i8>, ParseError>)
    requires
        e@.len() >= 4,
    ensures
        r is Ok <==> all_alnum(e@),
        r matches Ok(d) ==> d@ == check_digits(e@) && all_decimal(d@),
        r matches Err(err) ==> err is InvalidCharacter && err.message() == e@,
{
    let n = e.len();
    let ghost rot = rotated(e@);
    let mut d: Vec<i8> = Vec::new();
    let mut k: usize = 0;
    while k < n
        invariant
            n == e@.len(),
            n >= 4,
            rot == rotated(e@),
            k <= n,
            d@ == digits_of(rot.take(k as int)),
            all_decimal(d@),
            forall|j: int| 0 <= j < k ==> is_alnum(#[trigger] rot[j]),
        decreases n - k,
    {
        let idx: usize = if k < n - 4 {
            k + 4
        } else {
            k - (n - 4)
        };
        let c = e[idx];
        assert(rot[k as int] == c);
        if !push_char_digits(c, &mut d) {
            return Err(ParseError::InvalidCharacter(string_of(e)));
        }
        proof {
            lemma_char_digits_decimal(c);
            assert(rot.take(k as int + 1).drop_last() =~= rot.take(k as int));
        }
        k = k + 1;
    }
    assert(rot.take(n as int) =~= rot);
    assert forall|i: int| 0 <= i < e@.len() implies is_alnum(#[trigger] e@[i]) by {
        if i >= 4 {
            assert(rot[i - 4] == e@[i]);
        } else {
            assert(rot[n - 4 + i] == e@[i]);
        }
    }
    Ok(d)
}

/// The format checks on an electronic form, first failure wins.
fn validate(e: &[char]) -> (r: Result<(), ParseError>)
    ensures
        r is Ok <==> well_formed(e@),
        r matches Err(err) ==> format_error(err, e@),
{
    let n = e.len();
    if !(n > 4 && n <= 25) {
        return Err(ParseError::InvalidFormat(string_of(e)));
    }
    if !(e[0] == 'R' && e[1] == 'F') {
        return Err(ParseError::InvalidIdentifier(string_of(e)));
    }
    let mut i: usize = 4;
    while i < n
        invariant
            n == e@.len(),
            4 <= i <= n,
            length_ok(e@),
            identifier_ok(e@),
            forall|j: int| 4 <= j < i ==> is_alnum(#[trigger] e@[j]),
        decreases n - i,
    {
        let c = e[i];
        if !(('0' <= c && c <= '9') || ('A' <= c && c <= 'Z') || ('a' <= c && c <= 'z')) {
            assert(!is_alnum(e@[i as int]));
            assert(!body_ok(e@));
            return Err(ParseError::InvalidCharacter(string_of(e)));
        }
        i = i + 1;
    }
    Ok(())
}

/// A creditor reference that has passed every check. It holds its check
/// digits and its print form.
#[derive(Debug, Eq, PartialEq)]
pub struct RfCreditorReference {
    /// The check digits as a number
    checksum: u8,
    /// The print form: groups of four characters apart by spaces
    creditor_reference: String,
}

impl View for RfCreditorReference {
    type V = (u8, Seq<char>);

    closed spec fn view(&self) -> (u8, Seq<char>) {
        (self.checksum, self.creditor_reference@)
    }
}

impl RfCreditorReference {
    /// The print form parses to this very reference.
    #[verifier::type_invariant]
    spec fn inv(&self) -> bool {
        reference_model(self.creditor_reference@) == Some((
            self.checksum,
            self.creditor_reference@,
        ))
    }
}

/// The character of the decimal digit `n`.
fn digit_to_char(n: u8) -> (c: char)
    requires
        n <= 9,
    ensures
        c == digit_char(n as int),
{
    (n + 48) as char
}

/// `s` without spaces, as characters.
fn electronic_chars(s: &str) -> (r: Vec<char>)
    ensures
        r@ == electronic_of(s@),
{
    let v = chars_of(s);
    assert(v@.subrange(0, v@.len() as int) =~= v@);
    strip_spaces(&v, 0)
}

/// `RF00` followed by `rest`.
fn with_gen_prefix(rest: &[char]) -> (r: Vec<char>)
    ensures
        r@ == gen_prefix() + rest@,
{
    let mut r: Vec<char> = Vec::new();
    r.push('R');
    r.push('F');
    r.push('0');
    r.push('0');
    let mut i: usize = 0;
    while i < rest.len()
        invariant
            i <= rest@.len(),
            r@ == gen_prefix() + rest@.take(i as int),
        decreases rest@.len() - i,
    {
        r.push(rest[i]);
        proof {
            assert(rest@.take(i as int + 1) =~= rest@.take(i as int).push(rest@[i as int]));
            assert(gen_prefix() + rest@.take(i as int + 1) =~= r@);
        }
        i = i + 1;
    }
    assert(rest@.take(i as int) =~= rest@);
    r
}

impl RfCreditorReference {
    /// Generates a reference from `reference`, which must pass the format
    /// checks once `RF00` is put before it (see `try_new`).
    pub fn new(reference: &str) -> (r: Self)
        requires
            well_formed(placeholder_of(reference@)),
        ensures
            reference_model(generated_of(reference@)) == Some(r@),
    {
        Self::try_new(reference).unwrap()
    }

    /// Parses a reference in electronic or print form.
    ///
    /// Spaces are taken out first. Then come the format checks (length,
    /// identifier, body characters), then the check digits, which must be
    /// two decimal digits that make the reference check modulo 97.
    pub fn parse_str(reference: &str) -> (r: Result<Self, ParseError>)
        ensures
            r is Ok <==> reference_model(reference@) is Some,
            r matches Ok(rf) ==> reference_model(reference@) == Some(rf@),
            r matches Err(err) ==> parse_error(err, electronic_of(reference@)),
    {
        match Self::check_reference(reference) {
            Ok(()) => {},
            Err(err) => {
                return Err(err);
            },
        }
        let e = electronic_chars(reference);
        if !(('0' <= e[2] && e[2] <= '9') && ('0' <= e[3] && e[3] <= '9')) {
            return Err(ParseError::InvalidChecksum(string_of(&e)));
        }
        let checksum: u8 = ((e[2] as u32 - '0' as u32) * 10 + (e[3] as u32 - '0' as u32)) as u8;
        assert forall|i: int| 0 <= i < e@.len() implies is_alnum(#[trigger] e@[i]) by {
            if i >= 4 {
                assert(body_ok(e@));
            }
        }
        let d = match expand(&e) {
            Ok(d) => d,
            Err(err) => {
                return Err(err);
            },
        };
        if Self::is_valid(&d) {
            let mut out = String::new();
            out.push(e[0]);
            out.push(e[1]);
            out.push(e[2]);
            out.push(e[3]);
            out.push(' ');
            grouped_from(&e, 4, &mut out);
            assert(out@ =~= printable_of(e@));
            proof {
                lemma_round_trip(reference@);
            }
            Ok(RfCreditorReference { checksum, creditor_reference: out })
        } else {
            Err(ParseError::InvalidChecksum(string_of(&e)))
        }
    }

    /// The reference in electronic form, without spaces. It parses back to
    /// this reference.
    pub fn to_electronic_string(&self) -> (r: String)
        ensures
            r@ == electronic_of(self@.1),
            has_no_space(r@),
            reference_model(r@) == Some(self@),
    {
        proof {
            use_type_invariant(self);
            lemma_round_trip(self.creditor_reference@);
            lemma_electronic_has_no_space(self.creditor_reference@);
        }
        Self::convert_electronic(self.creditor_reference.as_str())
    }

    /// Generates a reference from `reference`: a body, or a body after `RF`
    /// or `RF00`. The body with `00` for check digits must pass the format
    /// checks; the check digits that make it check then take their place,
    /// and the result is parsed.
    pub fn try_new(reference: &str) -> (r: Result<Self, ParseError>)
        ensures
            r is Ok <==> well_formed(placeholder_of(reference@)),
            r matches Ok(rf) ==> reference_model(generated_of(reference@)) == Some(rf@),
            r matches Err(err) ==> format_error(err, placeholder_of(reference@)),
    {
        let v = chars_of(reference);
        let n = v.len();
        let mut e: Vec<char> = if n >= 4 && v[0] == 'R' && v[1] == 'F' && v[2] == '0' && v[3]
            == '0' {
            assert(v@.take(4) =~= gen_prefix());
            assert(v@.subrange(0, n as int) =~= v@);
            strip_spaces(&v, 0)
        } else if n >= 2 && v[0] == 'R' && v[1] == 'F' {
            assert(v@.take(2) =~= seq!['R', 'F']);
            assert(!(n >= 4 && v@.take(4) == gen_prefix())) by {
                if n >= 4 && v@.take(4) == gen_prefix() {
                    assert(v@.take(4)[2] == '0' && v@.take(4)[3] == '0');
                }
            }
            with_gen_prefix(&strip_spaces(&v, 2))
        } else {
            assert(!(n >= 4 && v@.take(4) == gen_prefix())) by {
                if n >= 4 && v@.take(4) == gen_prefix() {
                    assert(v@.take(4)[0] == 'R' && v@.take(4)[1] == 'F');
                }
            }
            assert(!(n >= 2 && v@.take(2) == seq!['R', 'F'])) by {
                if n >= 2 && v@.take(2) == seq!['R', 'F'] {
                    assert(v@.take(2)[0] == 'R' && v@.take(2)[1] == 'F');
                }
            }
            assert(v@.subrange(0, n as int) =~= v@);
            with_gen_prefix(&strip_spaces(&v, 0))
        };
        let ghost p = placeholder_of(reference@);
        assert(e@ == p);
        proof {
            lemma_placeholder_shape(reference@);
            lemma_electronic_of_spaceless(p);
        }
        match Self::check_reference(string_of(&e).as_str()) {
            Ok(()) => {},
            Err(err) => {
                return Err(err);
            },
        }
        assert(p[2] == gen_prefix()[2] && p[3] == gen_prefix()[3]);
        assert forall|i: int| 0 <= i < p.len() implies is_alnum(#[trigger] p[i]) by {
            if i >= 4 {
                assert(body_ok(p));
            } else {
                assert(p[i] == gen_prefix()[i]);
            }
        }
        let d = match expand(&e) {
            Ok(d) => d,
            Err(err) => {
                return Err(err);
            },
        };
        let (checksum, digits) = Self::gen_checksum(&d);
        e.set(2, digits[0]);
        e.set(3, digits[1]);
        proof {
            lemma_generated_valid(reference@);
            assert(e@ =~= generated_of(reference@));
            lemma_electronic_of_spaceless(e@);
        }
        Self::parse_str(string_of(&e).as_str())
    }

    /// The format checks on `reference` without its spaces: a length of
    /// five to twenty-five, the identifier `RF`, and a body of digits and
    /// ASCII letters; the first that fails is reported.
    pub fn check_reference(reference: &str) -> (r: Result<(), ParseError>)
        ensures
            r is Ok <==> well_formed(electronic_of(reference@)),
            r matches Err(err) ==> format_error(err, electronic_of(reference@)),
    {
        validate(&electronic_chars(reference))
    }

    /// `reference` with every space taken out.
    pub fn convert_electronic(reference: &str) -> (r: String)
        ensures
            r@ == electronic_of(reference@),
    {
        string_of(&electronic_chars(reference))
    }

    /// The check-digit sequence of `electronic_reference`: the digits of the
    /// body, then those of the identifier and check digits, a letter giving
    /// the two digits of its value (10 for `A` to 35 for `Z`).
    pub fn gen_check_digits(electronic_reference: &str) -> (r: Result<Vec<i8>, ParseError>)
        requires
            electronic_reference@.len() >= 4,
        ensures
            r is Ok <==> all_alnum(electronic_reference@),
            r matches Ok(d) ==> d@ == check_digits(electronic_reference@) && all_decimal(d@),
            r matches Err(err) ==> err is InvalidCharacter && err.message()
                == electronic_reference@,
    {
        expand(&chars_of(electronic_reference))
    }

    /// The check digits for a check-digit sequence read with `00` in their
    /// place: 98 minus its value modulo 97, as a number and as two
    /// characters.
    pub fn gen_checksum(check_digits: &[i8]) -> (r: (u8, [char; 2]))
        requires
            all_decimal(check_digits@),
        ensures
            r.0 as int == checksum_for(check_digits@),
            r.1@ == seq![digit_char(r.0 as int / 10), digit_char(r.0 as int % 10)],
    {
        let checksum: u8 = 98 - mod97(check_digits);
        let chars = [digit_to_char(checksum / 10), digit_to_char(checksum % 10)];
        assert(chars@ =~= seq![digit_char(checksum as int / 10), digit_char(checksum as int % 10)]);
        (checksum, chars)
    }

    /// Whether the number that `check_digits` writes leaves 1 modulo 97.
    pub fn is_valid(check_digits: &[i8]) -> (r: bool)
        requires
            all_decimal(check_digits@),
        ensures
            r == (digits_value(check_digits@) % 97 == 1),
    {
        mod97(check_digits) == 1
    }

    /// The check digits as a number.
    pub fn checksum(&self) -> (r: u8)
        ensures
            r == self@.0,
    {
        self.checksum
    }

    /// The reference in print form.
    pub fn to_string(&self) -> (r: String)
        ensures
            r@ == self@.1,
    {
        self.creditor_reference.clone()
    }

    /// The reference in print form, borrowed.
    pub fn as_str(&self) -> (r: &str)
        ensures
            r@ == self@.1,
    {
        self.creditor_reference.as_str()
    }
}

impl Clone for RfCreditorReference {
    fn clone(&self) -> (r: Self)
        ensures
            r@ == self@,
    {
        proof {
            use_type_invariant(self);
        }
        RfCreditorReference {
            checksum: self.checksum,
            creditor_reference: self.creditor_reference.clone(),
        }
    }
}

impl From<RfCreditorReference> for String {
    fn from(id: RfCreditorReference) -> (r: String)
        ensures
            r@ == id@.1,
    {
        id.creditor_reference
    }
}

impl vstd::std_specs::convert::FromSpecImpl<RfCreditorReference> for String {
    open spec fn obeys_from_spec() -> bool {
        true
    }

    closed spec fn from_spec(id: RfCreditorReference) -> String {
        id.creditor_reference
    }
}

impl From<&RfCreditorReference> for String {
    fn from(id: &RfCreditorReference) -> (r: String)
        ensures
            r@ == id@.1,
    {
        id.creditor_reference.clone()
    }
}

impl vstd::std_specs::convert::FromSpecImpl<&RfCreditorReference> for String {
    open spec fn obeys_from_spec() -> bool {
        true
    }

    closed spec fn from_spec(id: &RfCreditorReference) -> String {
        id.creditor_reference
    }
}

impl std::str::FromStr for RfCreditorReference {
    type Err = ParseError;

    fn from_str(s: &str) -> (r: Result<Self, ParseError>)
        ensures
            r is Ok <==> reference_model(s@) is Some,
            r matches Ok(rf) ==> reference_model(s@) == Some(rf@),
            r matches Err(err) ==> parse_error(err, electronic_of(s@)),
    {
        Self::parse_str(s)
    }
}

} // verus!
