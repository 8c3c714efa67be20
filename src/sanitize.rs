use vstd::prelude::*;
use crate::error::EvaluationError;

verus! {

/// ASCII letters `A-Z` and `a-z`.
pub open spec fn is_alpha(c: char) -> bool {
    (65 <= c as u32 && c as u32 <= 90) || (97 <= c as u32 && c as u32 <= 122)
}

/// ASCII decimal digits `0-9`.
pub open spec fn is_digit(c: char) -> bool {
    48 <= c as u32 && c as u32 <= 57
}

/// The characters with the Unicode `White_Space` property.
pub open spec fn is_white_space(c: char) -> bool {
    let u = c as u32;
    (0x9 <= u && u <= 0xD) || u == 0x20 || u == 0x85 || u == 0xA0 || u == 0x1680 || (0x2000 <= u
        && u <= 0x200A) || u == 0x2028 || u == 0x2029 || u == 0x202F || u == 0x205F || u == 0x3000
}

pub fn alpha(c: char) -> (r: bool)
    ensures
        r == is_alpha(c),
{
    let u = c as u32;
    (65 <= u && u <= 90) || (97 <= u && u <= 122)
}

pub fn digit(c: char) -> (r: bool)
    ensures
        r == is_digit(c),
{
    let u = c as u32;
    48 <= u && u <= 57
}

pub fn white_space(c: char) -> (r: bool)
    ensures
        r == is_white_space(c),
{
    let u = c as u32;
    (0x9 <= u && u <= 0xD) || u == 0x20 || u == 0x85 || u == 0xA0 || u == 0x1680 || (0x2000 <= u
        && u <= 0x200A) || u == 0x2028 || u == 0x2029 || u == 0x202F || u == 0x205F || u == 0x3000
}

/// Whether some character of `s` is alphabetic.
pub open spec fn has_alpha(s: Seq<char>) -> bool {
    exists|k: int| 0 <= k < s.len() && is_alpha(#[trigger] s[k])
}

/// `s` with every white-space character removed.
pub open spec fn strip_white_space(s: Seq<char>) -> Seq<char>
    decreases s.len(),
{
    if s.len() == 0 {
        s
    } else if is_white_space(s.last()) {
        strip_white_space(s.drop_last())
    } else {
        strip_white_space(s.drop_last()).push(s.last())
    }
}

/// What the sanitizer makes of an input.
pub open spec fn sanitized(s: Seq<char>) -> Result<Seq<char>, EvaluationError> {
    if has_alpha(s) {
        Err(EvaluationError::InvalidInput)
    } else {
        Ok(strip_white_space(s))
    }
}

/// Rejects an input with an alphabetic character, and otherwise returns its
/// characters with all white space removed.
pub fn sanitize(input: &str) -> (r: Result<Vec<char>, EvaluationError>)
    ensures
        r matches Ok(v) ==> sanitized(input@) == Ok::<Seq<char>, EvaluationError>(v@),
        r matches Err(e) ==> sanitized(input@) == Err::<Seq<char>, EvaluationError>(e),
{
    let n = input.unicode_len();
    let mut out: Vec<char> = Vec::new();
    let mut i: usize = 0;
    while i < n
        invariant
            n == input@.len(),
            i <= n,
            out@ == strip_white_space(input@.take(i as int)),
            forall|k: int| 0 <= k < i ==> !is_alpha(#[trigger] input@[k]),
        decreases n - i,
    {
        let c = input.get_char(i);
        if alpha(c) {
            return Err(EvaluationError::InvalidInput);
        }
        assert(input@.take(i + 1).drop_last() == input@.take(i as int));
        if !white_space(c) {
            out.push(c);
        }
        i = i + 1;
    }
    assert(input@.take(n as int) == input@);
    Ok(out)
}

} // verus!
