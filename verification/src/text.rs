//! Character classes and case-insensitive text matching.
//!
//! Everything here is ASCII-oriented: the lexicon headwords and the query
//! candidates are ASCII words, and case folding beyond ASCII is never needed
//! by the resolution rules.

use vstd::prelude::*;
use vstd::string::*;

verus! {

/// One of the 52 ASCII letters.
pub open spec fn is_ascii_letter(c: char) -> bool {
    ('a' <= c && c <= 'z') || ('A' <= c && c <= 'Z')
}

/// One of the 26 lowercase ASCII letters.
pub open spec fn is_lower_letter(c: char) -> bool {
    'a' <= c && c <= 'z'
}

/// ASCII case fold to lowercase; every other character is unchanged.
pub open spec fn lower_char(c: char) -> char {
    if 'A' <= c && c <= 'Z' {
        ((c as u8) + 0x20) as char
    } else {
        c
    }
}

/// ASCII case fold to uppercase; every other character is unchanged.
pub open spec fn upper_char(c: char) -> char {
    if 'a' <= c && c <= 'z' {
        ((c as u8) - 0x20) as char
    } else {
        c
    }
}

/// The sequence with every character folded to lowercase.
pub open spec fn lower_seq(s: Seq<char>) -> Seq<char> {
    Seq::new(s.len(), |i: int| lower_char(s[i]))
}

/// The sequence with every character folded to uppercase.
pub open spec fn upper_seq(s: Seq<char>) -> Seq<char> {
    Seq::new(s.len(), |i: int| upper_char(s[i]))
}

/// Executable ASCII lowercase fold of one character.
pub fn fold_lower(c: char) -> (r: char)
    ensures
        r == lower_char(c),
{
    if 'A' <= c && c <= 'Z' {
        ((c as u8) + 0x20) as char
    } else {
        c
    }
}

/// Relies on `str::to_ascii_lowercase`: ASCII uppercase letters are mapped to
/// lowercase and every other character is unchanged.
#[verifier::external_body]
pub fn ascii_lowercase(s: &str) -> (r: String)
    ensures
        r@ == lower_seq(s@),
{
    s.to_ascii_lowercase()
}

/// Relies on `str::to_ascii_uppercase`: ASCII lowercase letters are mapped to
/// uppercase and every other character is unchanged.
#[verifier::external_body]
pub fn ascii_uppercase(s: &str) -> (r: String)
    ensures
        r@ == upper_seq(s@),
{
    s.to_ascii_uppercase()
}

/// Character-for-character string equality.
pub fn str_eq(a: &str, b: &str) -> (r: bool)
    ensures
        r == (a@ == b@),
{
    let n = a.unicode_len();
    if n != b.unicode_len() {
        return false;
    }
    for i in 0..n
        invariant
            n == a@.len(),
            n == b@.len(),
            forall|k: int| 0 <= k < i ==> a@[k] == b@[k],
    {
        if a.get_char(i) != b.get_char(i) {
            return false;
        }
    }
    proof {
        assert(a@ =~= b@);
    }
    true
}

/// `needle` occurs at offset `k` of `hay`, comparing ASCII-case-insensitively.
pub open spec fn ci_match_at(hay: Seq<char>, needle: Seq<char>, k: int) -> bool {
    &&& 0 <= k
    &&& k + needle.len() <= hay.len()
    &&& forall|i: int|
        0 <= i < needle.len() ==> lower_char(hay[k + i]) == lower_char(needle[i])
}

/// `needle` is an ASCII-case-insensitive substring of `hay`.
pub open spec fn spec_contains_ci(hay: Seq<char>, needle: Seq<char>) -> bool {
    exists|k: int| ci_match_at(hay, needle, k)
}

/// Case-insensitive substring containment, the meaning of a `%needle%`
/// wildcard match against `hay`.
pub fn contains_ci(hay: &str, needle: &str) -> (r: bool)
    ensures
        r == spec_contains_ci(hay@, needle@),
{
    let h = hay.unicode_len();
    let n = needle.unicode_len();
    if n > h {
        return false;
    }
    let mut k: usize = 0;
    while k <= h - n
        invariant
            h == hay@.len(),
            n == needle@.len(),
            n <= h,
            k <= h - n + 1,
            forall|kk: int| 0 <= kk < k ==> !ci_match_at(hay@, needle@, kk),
        decreases h - n - k + 1,
    {
        let mut i: usize = 0;
        let mut hit = true;
        while i < n
            invariant
                h == hay@.len(),
                n == needle@.len(),
                k + n <= h,
                i <= n,
                hit ==> forall|j: int|
                    0 <= j < i ==> lower_char(hay@[k + j]) == lower_char(needle@[j]),
                !hit ==> exists|j: int|
                    0 <= j < n && lower_char(hay@[k + j]) != lower_char(needle@[j]),
            decreases n - i,
        {
            if fold_lower(hay.get_char(k + i)) != fold_lower(needle.get_char(i)) {
                hit = false;
                i = n;
            } else {
                i = i + 1;
            }
        }
        if hit {
            assert(ci_match_at(hay@, needle@, k as int));
            return true;
        }
        k = k + 1;
    }
    false
}

} // verus!
