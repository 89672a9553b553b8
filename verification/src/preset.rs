//! Preset names: turning an arbitrary preset name into a safe file stem.

use vstd::prelude::*;
use vstd::string::StrSliceExecFns;

verus! {

/// Whether a character counts as alphanumeric, exactly as
/// `char::is_alphanumeric` decides it.
pub uninterp spec fn is_alphanumeric_char(c: char) -> bool;

/// Relies on char::is_alphanumeric: whether the character is alphanumeric, a
/// function of the character alone.
#[verifier::external_body]
fn char_is_alphanumeric(c: char) -> (r: bool)
    ensures
        r == is_alphanumeric_char(c),
{
    c.is_alphanumeric()
}

/// Relies on String::push: appends the character at the end of the string.
#[verifier::external_body]
fn push_char(s: &mut String, c: char)
    ensures
        final(s)@ == old(s)@.push(c),
{
    s.push(c)
}

/// What each character of a preset name becomes in the file stem.
pub open spec fn sanitized_char(c: char) -> char {
    if is_alphanumeric_char(c) || c == '-' || c == '_' {
        c
    } else {
        '_'
    }
}

/// Make a preset name safe to use as a file stem: every character that is not
/// alphanumeric, `-` or `_` becomes `_`.
pub fn sanitize_filename(name: &str) -> (r: String)
    ensures
        r@.len() == name@.len(),
        forall|i: int| 0 <= i < name@.len() ==> r@[i] == sanitized_char(name@[i]),
{
    let n = name.unicode_len();
    let mut out = String::new();
    let mut i: usize = 0;
    while i < n
        invariant
            n == name@.len(),
            i <= n,
            out@.len() == i,
            forall|k: int| 0 <= k < i ==> out@[k] == sanitized_char(name@[k]),
        decreases n - i,
    {
        let c = name.get_char(i);
        if char_is_alphanumeric(c) || c == '-' || c == '_' {
            push_char(&mut out, c);
        } else {
            push_char(&mut out, '_');
        }
        i += 1;
    }
    out
}

} // verus!
