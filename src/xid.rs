//! Unicode identifier classes.

use vstd::prelude::*;
use unicode_xid::UnicodeXID;

verus! {

/// Whether `c` has the Unicode property XID_Start.
pub uninterp spec fn xid_start(c: char) -> bool;

/// Whether `c` has the Unicode property XID_Continue.
pub uninterp spec fn xid_continue(c: char) -> bool;

/// Relies on `UnicodeXID::is_xid_start` for `char`: the XID_Start property,
/// which holds of exactly the ASCII letters among ASCII characters.
#[verifier::external_body]
pub(crate) fn is_xid_start(c: char) -> (r: bool)
    ensures
        r == xid_start(c),
        c <= '\x7f' ==> (r <==> ('a' <= c <= 'z' || 'A' <= c <= 'Z')),
{
    UnicodeXID::is_xid_start(c)
}

/// Relies on `UnicodeXID::is_xid_continue` for `char`: the XID_Continue
/// property, which holds of exactly the ASCII letters, digits and `_` among
/// ASCII characters.
#[verifier::external_body]
pub(crate) fn is_xid_continue(c: char) -> (r: bool)
    ensures
        r == xid_continue(c),
        c <= '\x7f' ==> (r <==> ('a' <= c <= 'z' || 'A' <= c <= 'Z' || '0' <= c <= '9' || c
            == '_')),
{
    UnicodeXID::is_xid_continue(c)
}

} // verus!
