//! Loose plausibility check for envelope addresses.
use vstd::prelude::*;

verus! {

/// A printable, non-whitespace ASCII character (`'!'` through `'~'`).
pub open spec fn is_graphic(c: char) -> bool {
    '!' <= c && c <= '~'
}

/// Non-empty, and made only of graphic ASCII characters.
pub open spec fn plausible(s: Seq<char>) -> bool {
    s.len() > 0 && forall|i: int| 0 <= i < s.len() ==> is_graphic(#[trigger] s[i])
}

/// Whether `s` is plausible as an email address, in the loosest sense: it
/// is not empty and consists only of graphic ASCII characters (no
/// whitespace, no control characters, nothing outside ASCII).
pub fn is_plausible_string(s: &str) -> (r: bool)
    ensures
        r == plausible(s@),
{
    let n = s.unicode_len();
    if n == 0 {
        return false;
    }
    let mut i: usize = 0;
    while i < n
        invariant
            n == s@.len(),
            i <= n,
            forall|k: int| 0 <= k < i ==> is_graphic(#[trigger] s@[k]),
        decreases n - i,
    {
        let c = s.get_char(i);
        if !('!' <= c && c <= '~') {
            return false;
        }
        i = i + 1;
    }
    true
}

} // verus!
