//! The guard of the administrative routes.

use crate::text::chars_of;
use vstd::prelude::*;

verus! {

/// The token that the administrative header must carry.
pub const ADMIN_TOKEN: &'static str = "your token";

/// Whether two character sequences are equal.
fn chars_equal(a: &Vec<char>, b: &Vec<char>) -> (r: bool)
    ensures
        r == (a@ == b@),
{
    if a.len() != b.len() {
        return false;
    }
    let mut i: usize = 0;
    while i < a.len()
        invariant
            a@.len() == b@.len(),
            i <= a@.len(),
            forall|k: int| 0 <= k < i ==> a@[k] == b@[k],
        decreases a@.len() - i,
    {
        if a[i] != b[i] {
            return false;
        }
        i = i + 1;
    }
    assert(a@ =~= b@);
    true
}

/// Whether a request may pass to the administrative routes: its token
/// header is present and equals the administrator's token.
pub fn admin_token_accepted(header: Option<&str>) -> (ok: bool)
    ensures
        ok == (header matches Some(h) && h@ == ADMIN_TOKEN@),
{
    match header {
        None => false,
        Some(h) => {
            let given = chars_of(h);
            let expected = chars_of(ADMIN_TOKEN);
            chars_equal(&given, &expected)
        },
    }
}

} // verus!
