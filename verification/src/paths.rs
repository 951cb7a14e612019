//! Display normalization of filesystem paths: whatever separator convention
//! the source platform uses, a path is shown with forward slashes only.

use vstd::prelude::*;
use vstd::string::*;

use crate::text::push_char;

verus! {

/// A path with every backslash separator replaced by a forward slash.
pub open spec fn normalized(s: Seq<char>) -> Seq<char> {
    s.map_values(|c: char| if c == '\\' { '/' } else { c })
}

/// Rewrites a path for display: every backslash becomes a forward slash,
/// and every other character is kept as it is.
pub fn normalize_separators(s: &str) -> (r: String)
    ensures
        r@ == normalized(s@),
{
    let n = s.unicode_len();
    let mut out = String::new();
    let mut i: usize = 0;
    while i < n
        invariant
            n == s@.len(),
            i <= n,
            out@.len() == i,
            forall|k: int| 0 <= k < i ==> out@[k] == normalized(s@)[k],
        decreases n - i,
    {
        let c = s.get_char(i);
        let d = if c == '\\' {
            '/'
        } else {
            c
        };
        push_char(&mut out, d);
        i = i + 1;
    }
    proof {
        assert(out@ =~= normalized(s@));
    }
    out
}

} // verus!
