//! Title extraction: the text between the first `<title>` open tag and the
//! first `</title>` close tag, trimmed, or a fixed sentinel when either tag
//! is missing or the close tag does not come after the open tag.

use vstd::prelude::*;
use vstd::string::StringExecFns;

use crate::scan::{
    find_from, find_pat, lemma_find_from_at, lemma_find_from_none_of, lemma_find_from_some,
    occurs_at, str_to_chars, chars_to_string, trim_range, trim_spec,
};

verus! {

/// The literal open tag the scanner looks for.
pub open spec fn open_tag() -> Seq<char> {
    "<title>"@
}

/// The literal close tag the scanner looks for.
pub open spec fn close_tag() -> Seq<char> {
    "</title>"@
}

/// The sentinel returned when no title can be extracted.
pub open spec fn no_title() -> Seq<char> {
    "No title found"@
}

/// What `extract_title` returns: the trimmed text strictly between the first
/// `<title>` and the first `</title>` found anywhere in the document, or the
/// sentinel when either tag is missing or they are out of order.
pub open spec fn title_spec(s: Seq<char>) -> Seq<char> {
    match find_from(s, open_tag(), 0) {
        None => no_title(),
        Some(st) => match find_from(s, close_tag(), 0) {
            None => no_title(),
            Some(e) => if e > st {
                trim_spec(s.subrange(st + 7, e))
            } else {
                no_title()
            },
        },
    }
}

/// A close tag strictly after an open tag leaves room for the whole open
/// tag: the two cannot overlap, since `</title>` holds `<` only at its
/// start and `<title>` holds it only at its start.
proof fn lemma_title_gap(s: Seq<char>, st: int, e: int)
    requires
        occurs_at(s, open_tag(), st),
        occurs_at(s, close_tag(), e),
        e > st,
    ensures
        e >= st + 7,
{
    reveal_strlit("<title>");
    reveal_strlit("</title>");
    if e < st + 7 {
        assert(s[e + 0] == close_tag()[0]);
        assert(s[st + (e - st)] == open_tag()[e - st]);
        assert(false);
    }
}

/// The title of the document, per `title_spec`.
pub fn extract_title(html: &str) -> (r: String)
    ensures
        r@ == title_spec(html@),
{
    let cs = str_to_chars(html);
    let open = str_to_chars("<title>");
    let close = str_to_chars("</title>");
    match find_pat(cs.as_slice(), open.as_slice(), 0) {
        None => String::from_str("No title found"),
        Some(st) => match find_pat(cs.as_slice(), close.as_slice(), 0) {
            None => String::from_str("No title found"),
            Some(e) => {
                if e > st {
                    proof {
                        reveal_strlit("<title>");
                        lemma_find_from_some(cs@, open@, 0, st as int);
                        lemma_find_from_some(cs@, close@, 0, e as int);
                        lemma_title_gap(cs@, st as int, e as int);
                    }
                    let t = trim_range(cs.as_slice(), st + 7, e);
                    chars_to_string(t.as_slice())
                } else {
                    String::from_str("No title found")
                }
            },
        },
    }
}

/// A document holding no `<title>` open tag anywhere yields exactly the
/// sentinel.
pub proof fn lemma_title_absent(s: Seq<char>)
    requires
        forall|i: int| !occurs_at(s, open_tag(), i),
    ensures
        title_spec(s) == no_title(),
{
    lemma_find_from_none_of(s, open_tag(), 0);
}

/// A document that is exactly `<title>`, then `x`, then `</title>` yields
/// `x` with its surrounding white-space stripped, provided `x` itself holds
/// no `</title>` (with one inside, the earlier close tag would win).
pub proof fn lemma_title_wrapped(x: Seq<char>)
    requires
        forall|i: int| !occurs_at(x, close_tag(), i),
    ensures
        title_spec(open_tag() + x + close_tag()) == trim_spec(x),
{
    reveal_strlit("<title>");
    reveal_strlit("</title>");
    let s = open_tag() + x + close_tag();
    let n = x.len() as int;
    assert(occurs_at(s, open_tag(), 0)) by {
        assert(forall|k: int| 0 <= k < 7 ==> s[k] == open_tag()[k]);
    }
    lemma_find_from_at(s, open_tag(), 0, 0);
    assert(occurs_at(s, close_tag(), 7 + n)) by {
        assert(forall|k: int| 0 <= k < 8 ==> s[7 + n + k] == close_tag()[k]);
    }
    assert forall|p: int| 0 <= p < 7 + n implies !occurs_at(s, close_tag(), p) by {
        if occurs_at(s, close_tag(), p) {
            if p == 0 {
                assert(s[p + 1] == close_tag()[1]);
                assert(s[1] == open_tag()[1]);
                assert(false);
            } else if p < 7 {
                assert(s[p + 0] == close_tag()[0]);
                assert(s[p] == open_tag()[p]);
                assert(false);
            } else if p + 8 <= 7 + n {
                assert(occurs_at(x, close_tag(), p - 7)) by {
                    assert(forall|k: int| 0 <= k < 8 ==> #[trigger] x[(p - 7) + k] == s[p + k]);
                }
                assert(false);
            } else {
                let k = 7 + n - p;
                assert(s[p + k] == close_tag()[k]);
                assert(s[7 + n + 0] == close_tag()[0]);
                assert(false);
            }
        }
    }
    lemma_find_from_at(s, close_tag(), 0, 7 + n);
    assert(s.subrange(7, 7 + n) =~= x);
}

} // verus!
