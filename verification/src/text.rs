//! String helpers: reversal on logical characters and a greeting
//! template.

use vstd::prelude::*;
use vstd::string::StrSliceExecFns;
use vstd::string::StringExecFns;

verus! {

/// Reverse a string.
///
/// The reversal works on characters (code points), so a multi-byte
/// character moves as one unit.
pub fn reverse_string(input: &str) -> (r: String)
    ensures
        r@ == input@.reverse(),
{
    let n = input.unicode_len();
    let mut r = String::new();
    let mut i: usize = 0;
    while i < n
        invariant
            n == input@.len(),
            i <= n,
            r@.len() == i,
            forall|j: int| 0 <= j < i ==> r@[j] == input@[n - 1 - j],
        decreases n - i,
    {
        let c = input.substring_char(n - 1 - i, n - i);
        r.append(c);
        i = i + 1;
    }
    proof {
        assert(r@ =~= input@.reverse());
    }
    r
}

/// Reversing a string twice yields the original string.
pub proof fn lemma_reverse_involution(s: Seq<char>)
    ensures
        s.reverse().reverse() == s,
{
    assert(s.reverse().reverse() =~= s);
}

/// Create a greeting message that carries `name` verbatim.
///
/// An empty `name` yields the greeting with an empty slot, not an
/// error.
pub fn create_greeting(name: &str) -> (r: String)
    ensures
        r@ == "Hello, "@ + name@ + "! 👋"@,
{
    let mut r = String::from_str("Hello, ");
    r.append(name);
    r.append("! 👋");
    r
}

} // verus!
