//! Verified compute parts of the host-facing operations that are not HTML
//! extraction: the greeting line and the uppercase-then-reverse text
//! transform.

use vstd::prelude::*;
use vstd::string::StringExecFns;

use crate::scan::{chars_to_string, str_to_chars};

verus! {

/// The greeting line for `name`.
pub fn greeting(name: &str) -> (r: String)
    ensures
        r@ == "Hello, "@ + name@ + "! Welcome to Extism!"@,
{
    let mut s = String::from_str("Hello, ");
    s.append(name);
    s.append("! Welcome to Extism!");
    proof {
        assert(s@ =~= "Hello, "@ + name@ + "! Welcome to Extism!"@);
    }
    s
}

/// What `str::to_uppercase` returns: a function of the characters alone.
pub uninterp spec fn upper_of(s: Seq<char>) -> Seq<char>;

/// Relies on `str::to_uppercase`: the Unicode uppercase mapping of the
/// characters, depending on the characters alone; an empty input gives an
/// empty output.
#[verifier::external_body]
fn to_upper(s: &str) -> (r: String)
    ensures
        r@ == upper_of(s@),
        s@.len() == 0 ==> r@.len() == 0,
{
    s.to_uppercase()
}

/// `s` reversed.
pub open spec fn rev(s: Seq<char>) -> Seq<char> {
    Seq::new(s.len(), |i: int| s[s.len() - 1 - i])
}

/// The uppercased, then reversed copy of `text`.
#[verifier::loop_isolation(false)]
pub fn transform_text(text: &str) -> (r: String)
    ensures
        r@ == rev(upper_of(text@)),
{
    let up = to_upper(text);
    let cs = str_to_chars(up.as_str());
    let mut out: Vec<char> = Vec::new();
    let mut i: usize = cs.len();
    while i > 0
        invariant
            i <= cs@.len(),
            out@.len() == cs@.len() - i,
            forall|j: int| 0 <= j < out@.len() ==> out@[j] == cs@[cs@.len() - 1 - j],
        decreases i,
    {
        i = i - 1;
        out.push(cs[i]);
    }
    proof {
        assert(out@ =~= rev(upper_of(text@)));
    }
    chars_to_string(out.as_slice())
}

} // verus!
