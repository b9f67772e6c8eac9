use vstd::prelude::*;

verus! {

/// ASCII upper case of a character: `a`..=`z` become `A`..=`Z`, every other
/// character stays as it is.
pub open spec fn upper(c: char) -> char {
    if 'a' <= c && c <= 'z' {
        ((c as int) - 32) as char
    } else {
        c
    }
}

/// Two characters are equal when ASCII case is ignored.
pub open spec fn same_ignoring_case(a: char, b: char) -> bool {
    upper(a) == upper(b)
}

/// `needle` is a prefix of `haystack`, comparing characters without ASCII case.
pub open spec fn is_prefix_ignoring_case(needle: Seq<char>, haystack: Seq<char>) -> bool {
    &&& needle.len() <= haystack.len()
    &&& forall|i: int| 0 <= i < needle.len() ==> same_ignoring_case(needle[i], haystack[i])
}

/// The ASCII upper case of `c`, as `char::to_ascii_uppercase` gives it.
pub fn to_ascii_uppercase(c: char) -> (u: char)
    ensures
        u == upper(c),
{
    if 'a' <= c && c <= 'z' {
        let b: u8 = c as u8;
        (b - 32) as char
    } else {
        c
    }
}

/// Whether `a` and `b` are equal once ASCII case is ignored.
pub fn eq_ignore_ascii_case(a: char, b: char) -> (r: bool)
    ensures
        r == same_ignoring_case(a, b),
{
    to_ascii_uppercase(a) == to_ascii_uppercase(b)
}

/// Whether `needle` starts `haystack`, comparing characters without ASCII case.
pub fn is_prefix_of(needle: &[char], haystack: &[char]) -> (r: bool)
    ensures
        r == is_prefix_ignoring_case(needle@, haystack@),
{
    if needle.len() > haystack.len() {
        false
    } else {
        let mut i: usize = 0;
        while i < needle.len()
            invariant
                needle@.len() <= haystack@.len(),
                i <= needle@.len(),
                forall|k: int| 0 <= k < i ==> same_ignoring_case(needle@[k], haystack@[k]),
            decreases needle@.len() - i,
        {
            if !eq_ignore_ascii_case(needle[i], haystack[i]) {
                return false;
            }
            i += 1;
        }
        true
    }
}

/// Upper case is idempotent.
pub proof fn lemma_upper_idempotent(c: char)
    ensures
        upper(upper(c)) == upper(c),
{
}

} // verus!
