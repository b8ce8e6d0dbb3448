use vstd::prelude::*;
use vstd::string::StrSliceExecFns;

verus! {

/// Characters that may open an identifier: ASCII letters and the underscore.
pub open spec fn is_ident_start(c: char) -> bool {
    ('a' as int <= c as int && c as int <= 'z' as int) || ('A' as int <= c as int
        && c as int <= 'Z' as int) || c == '_'
}

/// Characters that may continue an identifier: ASCII letters, digits and the
/// underscore.
pub open spec fn is_ident_char(c: char) -> bool {
    is_ident_start(c) || ('0' as int <= c as int && c as int <= '9' as int)
}

/// The whitespace characters that are silently consumed after a token.
pub open spec fn is_space(c: char) -> bool {
    c == ' ' || c == '\t' || c == '\n' || c == '\r'
}

/// Decide `is_ident_start` on a concrete character.
pub fn ident_start_char(c: char) -> (b: bool)
    ensures
        b == is_ident_start(c),
{
    let n = c as u32;
    (n >= 'a' as u32 && n <= 'z' as u32) || (n >= 'A' as u32 && n <= 'Z' as u32) || c == '_'
}

/// Decide `is_ident_char` on a concrete character.
pub fn ident_char(c: char) -> (b: bool)
    ensures
        b == is_ident_char(c),
{
    let n = c as u32;
    ident_start_char(c) || (n >= '0' as u32 && n <= '9' as u32)
}

/// Decide `is_space` on a concrete character.
pub fn space_char(c: char) -> (b: bool)
    ensures
        b == is_space(c),
{
    c == ' ' || c == '\t' || c == '\n' || c == '\r'
}

/// Character-wise string equality, proved equivalent to equality of the
/// string views.
pub fn str_eq(a: &str, b: &str) -> (r: bool)
    ensures
        r == (a@ == b@),
{
    let alen = a.unicode_len();
    let blen = b.unicode_len();
    if alen != blen {
        return false;
    }
    let mut i: usize = 0;
    while i < alen
        invariant
            alen == a@.len(),
            blen == b@.len(),
            alen == blen,
            i <= alen,
            forall|j: int| 0 <= j < i ==> a@[j] == b@[j],
        decreases alen - i,
    {
        if a.get_char(i) != b.get_char(i) {
            return false;
        }
        i += 1;
    }
    proof {
        assert(a@ =~= b@);
    }
    true
}

} // verus!
