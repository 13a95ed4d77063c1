//! Interned strings.
//!
//! A string value of the language is a handle into a process-wide table of
//! canonical, immutable strings, provided by the `ustr` crate. The table
//! lives for the lifetime of the process, so a handle is forever valid, and
//! two handles are equal exactly when they name the same characters. The
//! spec function `ustr_chars` gives the characters that the table holds for
//! a handle; every trusted item below speaks in terms of it.

use vstd::prelude::*;

verus! {

/// The handle type of the process-wide intern table.
#[verifier::external_type_specification]
#[verifier::external_body]
pub struct ExUstr(ustr::Ustr);

/// The characters that the intern table holds for the handle `u`.
pub uninterp spec fn ustr_chars(u: ustr::Ustr) -> Seq<char>;

/// Relies on `ustr::Ustr::from`: interns a copy of `s` and returns its
/// handle, whose characters are exactly those of `s`.
#[verifier::external_body]
pub fn intern(s: &str) -> (u: ustr::Ustr)
    ensures
        ustr_chars(u) == s@,
{
    ustr::Ustr::from(s)
}

/// Relies on `ustr::Ustr::as_str`: reads the interned characters back out of
/// the table.
#[verifier::external_body]
pub fn interned_str(u: &ustr::Ustr) -> (s: &str)
    ensures
        s@ == ustr_chars(*u),
{
    u.as_str()
}

/// Relies on `ustr::Ustr`'s `PartialEq`, which compares the handles
/// themselves: because the table holds one canonical copy of each string and
/// never drops it, two handles are equal exactly when their characters are.
#[verifier::external_body]
pub fn interned_eq(a: &ustr::Ustr, b: &ustr::Ustr) -> (r: bool)
    ensures
        r == (ustr_chars(*a) == ustr_chars(*b)),
{
    a == b
}

} // verus!
