//! ASCII case mapping of strings, as std does it, and small string helpers.
use vstd::prelude::*;

verus! {

/// `c` with the ASCII letters 'a' to 'z' mapped to 'A' to 'Z'.
pub open spec fn ascii_upper(c: char) -> char {
    if 'a' <= c && c <= 'z' {
        ((c as u32) - 32) as char
    } else {
        c
    }
}

/// `c` with the ASCII letters 'A' to 'Z' mapped to 'a' to 'z'.
pub open spec fn ascii_lower(c: char) -> char {
    if 'A' <= c && c <= 'Z' {
        ((c as u32) + 32) as char
    } else {
        c
    }
}

pub open spec fn upper_of(s: Seq<char>) -> Seq<char> {
    s.map_values(|c: char| ascii_upper(c))
}

pub open spec fn lower_of(s: Seq<char>) -> Seq<char> {
    s.map_values(|c: char| ascii_lower(c))
}

/// std's `str::to_ascii_uppercase`: a copy of the string in which each ASCII
/// letter 'a' to 'z' is mapped to 'A' to 'Z' and every other character is
/// kept, as its documentation says.
pub assume_specification[ str::to_ascii_uppercase ](s: &str) -> (res: String)
    ensures
        res@ == upper_of(s@),
;

/// std's `str::to_ascii_lowercase`: a copy of the string in which each ASCII
/// letter 'A' to 'Z' is mapped to 'a' to 'z' and every other character is
/// kept, as its documentation says.
pub assume_specification[ str::to_ascii_lowercase ](s: &str) -> (res: String)
    ensures
        res@ == lower_of(s@),
;

/// std's `String::push`: appends the character to the end of the string,
/// as its documentation says.
pub assume_specification[ String::push ](s: &mut String, ch: char)
    ensures
        final(s)@ == old(s)@.push(ch),
;

/// The UTF-8 encoding of a non-empty string is not empty.
pub proof fn lemma_encode_nonempty(s: Seq<char>)
    requires
        s.len() > 0,
    ensures
        vstd::utf8::encode_utf8(s).len() > 0,
{
    let first = vstd::utf8::encode_scalar(s[0] as u32);
    assert(first.len() > 0);
}

} // verus!
