//! Character-level validity for the names and values that the persisted
//! records hold. Names are package identifiers; values are version strings
//! and requirement constraints. The limits here are what keeps the record
//! format unambiguous: a name can never look like a comment, a section
//! header or an entry separator, and a value can never close its own quotes.

use vstd::prelude::*;

verus! {

/// A name character: lower-case ASCII letter, digit or underscore.
pub open spec fn name_char(c: char) -> bool {
    ('a' as u32 <= c as u32 && c as u32 <= 'z' as u32) || ('0' as u32 <= c as u32 && c as u32
        <= '9' as u32) || c == '_'
}

/// A value character: printable ASCII except the double quote and the
/// backslash, so a quoted value needs no escaping.
pub open spec fn value_char(c: char) -> bool {
    c == ' ' || ('!' as u32 <= c as u32 && c as u32 <= '~' as u32 && c != '"' && c != '\\')
}

/// A valid package name: non-empty, name characters only.
pub open spec fn valid_name(s: Seq<char>) -> bool {
    s.len() > 0 && (forall|i: int| 0 <= i < s.len() ==> name_char(s[i]))
}

/// A valid value: value characters only (possibly empty).
pub open spec fn valid_value(s: Seq<char>) -> bool {
    forall|i: int| 0 <= i < s.len() ==> value_char(s[i])
}

/// Checks whether `s` is a valid package name.
pub fn check_name(s: &str) -> (b: bool)
    ensures
        b == valid_name(s@),
{
    let n = s.unicode_len();
    if n == 0 {
        return false;
    }
    let mut i: usize = 0;
    while i < n
        invariant
            i <= n,
            n == s@.len(),
            forall|j: int| 0 <= j < i ==> name_char(s@[j]),
        decreases n - i,
    {
        let c = s.get_char(i);
        let u = c as u32;
        if !((97 <= u && u <= 122) || (48 <= u && u <= 57) || c == '_') {
            return false;
        }
        i += 1;
    }
    true
}

/// Character-for-character equality of two string slices.
pub fn str_eq(a: &str, b: &str) -> (r: bool)
    ensures
        r == (a@ == b@),
{
    let n = a.unicode_len();
    let m = b.unicode_len();
    if n != m {
        return false;
    }
    let mut i: usize = 0;
    while i < n
        invariant
            i <= n,
            n == a@.len(),
            n == b@.len(),
            forall|j: int| 0 <= j < i ==> a@[j] == b@[j],
        decreases n - i,
    {
        if a.get_char(i) != b.get_char(i) {
            return false;
        }
        i += 1;
    }
    proof {
        assert(a@ =~= b@);
    }
    true
}

/// Equality of `s[from..to]` against `t`, character for character.
pub fn str_range_eq(s: &str, from: usize, to: usize, t: &str) -> (r: bool)
    requires
        from <= to <= s@.len(),
    ensures
        r == (s@.subrange(from as int, to as int) == t@),
{
    let m = t.unicode_len();
    if to - from != m {
        return false;
    }
    let mut k: usize = 0;
    while k < m
        invariant
            k <= m,
            from <= to <= s@.len(),
            m == t@.len(),
            to - from == m,
            forall|j: int| 0 <= j < k ==> s@[from + j] == t@[j],
        decreases m - k,
    {
        if s.get_char(from + k) != t.get_char(k) {
            proof {
                assert(s@.subrange(from as int, to as int)[k as int] == s@[from + k]);
            }
            return false;
        }
        k += 1;
    }
    proof {
        assert(s@.subrange(from as int, to as int) =~= t@);
    }
    true
}

/// Checks whether `s` is a valid value.
pub fn check_value(s: &str) -> (b: bool)
    ensures
        b == valid_value(s@),
{
    let n = s.unicode_len();
    let mut i: usize = 0;
    while i < n
        invariant
            i <= n,
            n == s@.len(),
            forall|j: int| 0 <= j < i ==> value_char(s@[j]),
        decreases n - i,
    {
        let c = s.get_char(i);
        let u = c as u32;
        if !(c == ' ' || (33 <= u && u <= 126 && c != '"' && c != '\\')) {
            return false;
        }
        i += 1;
    }
    true
}

} // verus!
