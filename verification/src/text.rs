//! Verified helpers on strings: exact comparison and display-name
//! normalization.

use vstd::prelude::*;
use vstd::string::StrSliceExecFns;

verus! {

/// A display name with exactly one leading separator stripped, if present.
pub open spec fn spec_normalize(s: Seq<char>) -> Seq<char> {
    if s.len() > 0 && s[0] == '/' {
        s.drop_first()
    } else {
        s
    }
}

/// Character-for-character equality of two string slices.
pub fn str_eq(a: &str, b: &str) -> (r: bool)
    ensures
        r == (a@ == b@),
{
    let na = a.unicode_len();
    let nb = b.unicode_len();
    if na != nb {
        return false;
    }
    let mut i: usize = 0;
    while i < na
        invariant
            i <= na,
            na == a@.len(),
            na == b@.len(),
            forall|j: int| 0 <= j < i ==> a@[j] == b@[j],
        decreases na - i,
    {
        if a.get_char(i) != b.get_char(i) {
            return false;
        }
        i += 1;
    }
    proof {
        assert(a@ =~= b@);
    }
    true
}

/// Strips one leading separator from a display name, if present.
pub fn normalize_name(name: &str) -> (r: String)
    ensures
        r@ == spec_normalize(name@),
{
    let n = name.unicode_len();
    if n > 0 && name.get_char(0) == '/' {
        let rest = name.substring_char(1, n);
        proof {
            assert(rest@ =~= spec_normalize(name@));
        }
        rest.to_owned()
    } else {
        name.to_owned()
    }
}

} // verus!
