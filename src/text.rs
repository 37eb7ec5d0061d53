//! Space removal, four-character grouping, and conversions between `str`,
//! `String` and `Vec<char>`.
use vstd::prelude::*;

verus! {

/// Relies on `String::push`: appends the character to the end of the string.
pub assume_specification[ String::push ](s: &mut String, ch: char)
    ensures
        final(s)@ == old(s)@.push(ch),
;

/// `s` with every space taken out, the other characters kept in order.
pub open spec fn electronic_of(s: Seq<char>) -> Seq<char>
    decreases s.len(),
{
    if s.len() == 0 {
        seq![]
    } else if s.last() == ' ' {
        electronic_of(s.drop_last())
    } else {
        electronic_of(s.drop_last()).push(s.last())
    }
}

/// No character of `s` is a space.
pub open spec fn has_no_space(s: Seq<char>) -> bool {
    forall|i: int| 0 <= i < s.len() ==> #[trigger] s[i] != ' '
}

/// `s` with a space before every position that is a positive multiple of 4.
pub open spec fn grouped(s: Seq<char>) -> Seq<char>
    decreases s.len(),
{
    if s.len() == 0 {
        seq![]
    } else {
        let n = s.len() - 1;
        if n != 0 && n % 4 == 0 {
            grouped(s.drop_last()).push(' ').push(s.last())
        } else {
            grouped(s.drop_last()).push(s.last())
        }
    }
}

pub proof fn lemma_electronic_has_no_space(s: Seq<char>)
    ensures
        has_no_space(electronic_of(s)),
    decreases s.len(),
{
    if s.len() > 0 {
        lemma_electronic_has_no_space(s.drop_last());
    }
}

pub proof fn lemma_electronic_of_spaceless(s: Seq<char>)
    requires
        has_no_space(s),
    ensures
        electronic_of(s) == s,
    decreases s.len(),
{
    if s.len() > 0 {
        lemma_electronic_of_spaceless(s.drop_last());
        assert(s.drop_last().push(s.last()) =~= s);
    }
}

pub proof fn lemma_electronic_idempotent(s: Seq<char>)
    ensures
        electronic_of(electronic_of(s)) == electronic_of(s),
{
    lemma_electronic_has_no_space(s);
    lemma_electronic_of_spaceless(electronic_of(s));
}

pub proof fn lemma_electronic_concat(a: Seq<char>, b: Seq<char>)
    ensures
        electronic_of(a + b) == electronic_of(a) + electronic_of(b),
    decreases b.len(),
{
    if b.len() == 0 {
        assert(a + b =~= a);
        assert(electronic_of(a) + electronic_of(b) =~= electronic_of(a));
    } else {
        assert((a + b).drop_last() =~= a + b.drop_last());
        lemma_electronic_concat(a, b.drop_last());
        if b.last() != ' ' {
            assert(electronic_of(a) + electronic_of(b.drop_last()).push(b.last()) =~= (
            electronic_of(a) + electronic_of(b.drop_last())).push(b.last()));
        }
    }
}

/// Grouping only adds spaces.
pub proof fn lemma_electronic_of_grouped(s: Seq<char>)
    ensures
        electronic_of(grouped(s)) == electronic_of(s),
    decreases s.len(),
{
    if s.len() > 0 {
        lemma_electronic_of_grouped(s.drop_last());
        let g = grouped(s.drop_last());
        let n = s.len() - 1;
        let c = s.last();
        if n != 0 && n % 4 == 0 {
            assert(g.push(' ').push(c).drop_last() =~= g.push(' '));
            assert(g.push(' ').drop_last() =~= g);
            assert(electronic_of(g.push(' ')) == electronic_of(g));
        } else {
            assert(g.push(c).drop_last() =~= g);
        }
        assert(grouped(s).last() == c);
    }
}

/// The characters of `s`.
pub fn chars_of(s: &str) -> (r: Vec<char>)
    ensures
        r@ == s@,
{
    let n = s.unicode_len();
    let mut v: Vec<char> = Vec::new();
    let mut i: usize = 0;
    while i < n
        invariant
            n == s@.len(),
            i <= n,
            v@ == s@.take(i as int),
        decreases n - i,
    {
        let c = s.get_char(i);
        v.push(c);
        proof {
            assert(s@.take(i as int + 1) =~= s@.take(i as int).push(c));
        }
        i = i + 1;
    }
    assert(s@.take(i as int) =~= s@);
    v
}

/// A string of the characters of `v`.
pub fn string_of(v: &[char]) -> (r: String)
    ensures
        r@ == v@,
{
    let mut out = String::new();
    let mut i: usize = 0;
    while i < v.len()
        invariant
            i <= v@.len(),
            out@ == v@.take(i as int),
        decreases v@.len() - i,
    {
        out.push(v[i]);
        proof {
            assert(v@.take(i as int + 1) =~= v@.take(i as int).push(v@[i as int]));
        }
        i = i + 1;
    }
    assert(v@.take(i as int) =~= v@);
    out
}

/// The characters of `v` from `start` on, without spaces.
pub fn strip_spaces(v: &[char], start: usize) -> (r: Vec<char>)
    requires
        start <= v@.len(),
    ensures
        r@ == electronic_of(v@.subrange(start as int, v@.len() as int)),
{
    let mut out: Vec<char> = Vec::new();
    let mut i: usize = start;
    while i < v.len()
        invariant
            start <= i <= v@.len(),
            out@ == electronic_of(v@.subrange(start as int, i as int)),
        decreases v@.len() - i,
    {
        let c = v[i];
        proof {
            assert(v@.subrange(start as int, i as int + 1).drop_last() =~= v@.subrange(
                start as int,
                i as int,
            ));
        }
        if c != ' ' {
            out.push(c);
        }
        i = i + 1;
    }
    out
}

/// Appends to `out` the characters of `v` from `start` on, grouped by four.
pub fn grouped_from(v: &[char], start: usize, out: &mut String)
    requires
        start <= v@.len(),
    ensures
        final(out)@ == old(out)@ + grouped(v@.subrange(start as int, v@.len() as int)),
{
    let ghost base = out@;
    let mut i: usize = start;
    assert(base + grouped(v@.subrange(start as int, start as int)) =~= base);
    while i < v.len()
        invariant
            start <= i <= v@.len(),
            out@ == base + grouped(v@.subrange(start as int, i as int)),
        decreases v@.len() - i,
    {
        let ghost g = grouped(v@.subrange(start as int, i as int));
        proof {
            assert(v@.subrange(start as int, i as int + 1).drop_last() =~= v@.subrange(
                start as int,
                i as int,
            ));
        }
        let n = i - start;
        if n != 0 && n % 4 == 0 {
            out.push(' ');
            proof {
                assert(base + g.push(' ') =~= (base + g).push(' '));
            }
        }
        out.push(v[i]);
        proof {
            assert(base + grouped(v@.subrange(start as int, i as int + 1)) =~= out@);
        }
        i = i + 1;
    }
}

} // verus!
