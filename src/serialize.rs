use vstd::prelude::*;

use crate::codec::{chars_of, string_of};

verus! {

/// `s` with a `,` after each character that has a positive multiple of three
/// characters after it.
pub open spec fn grouped(s: Seq<char>) -> Seq<char>
    decreases s.len(),
{
    if s.len() == 0 {
        Seq::empty()
    } else if s.len() > 1 && (s.len() - 1) % 3 == 0 {
        seq![s[0], ','] + grouped(s.skip(1))
    } else {
        seq![s[0]] + grouped(s.skip(1))
    }
}

/// Separates the digits of a written number in groups of three from the right
/// (`1234567` becomes `1,234,567`).
pub fn group_digits(digits: &str) -> (r: String)
    ensures
        r@ == grouped(digits@),
{
    let cs = chars_of(digits);
    let n = cs.len();
    let mut out: Vec<char> = Vec::new();
    let mut i: usize = 0;
    assert(digits@.skip(0) =~= digits@);
    while i < n
        invariant
            n == cs@.len(),
            cs@ == digits@,
            0 <= i <= n,
            out@ + grouped(digits@.skip(i as int)) == grouped(digits@),
        decreases n - i,
    {
        let ghost rest = digits@.skip(i as int);
        assert(rest.skip(1) =~= digits@.skip(i + 1));
        out.push(cs[i]);
        let after = n - (i + 1);
        if after > 0 && after % 3 == 0 {
            out.push(',');
        }
        i += 1;
        assert(out@ + grouped(digits@.skip(i as int)) =~= grouped(digits@));
    }
    assert(digits@.skip(i as int) =~= Seq::<char>::empty());
    assert(out@ =~= grouped(digits@));
    string_of(out.as_slice())
}

} // verus!
