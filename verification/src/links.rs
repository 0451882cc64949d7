//! Link extraction: every `href="` marker is scanned in turn, the text up
//! to the next double quote is captured, and captures that start with the
//! literal `http` are collected in document order, duplicates kept. The
//! scan resumes just after each marker, and a capture with no closing quote
//! ends it.

use vstd::prelude::*;

use crate::scan::{
    chars_to_string, copy_range, find_char, find_char_from, find_from, find_pat,
    lemma_find_from_some, str_to_chars,
};

verus! {

/// The literal attribute marker the scanner looks for.
pub open spec fn href_marker() -> Seq<char> {
    "href=\""@
}

/// The capture starts with the literal `http` (so also `https`).
pub open spec fn is_http(l: Seq<char>) -> bool {
    l.len() >= 4 && l[0] == 'h' && l[1] == 't' && l[2] == 't' && l[3] == 'p'
}

/// The links collected scanning at or after `from`: the first `href="`
/// marker is located, the text up to the next `"` is captured and kept
/// when it starts with `http`, and the scan resumes just past the marker.
/// No marker, or no closing quote, ends the scan.
pub open spec fn links_from(s: Seq<char>, from: int) -> Seq<Seq<char>>
    decreases s.len() - from,
{
    match find_from(s, href_marker(), from) {
        None => seq![],
        Some(m) => {
            if m < from || m + 6 > s.len() {
                seq![]
            } else {
                match find_char_from(s, '"', m + 6) {
                    None => seq![],
                    Some(q) => {
                        if q < m + 6 || q > s.len() {
                            seq![]
                        } else {
                            let link = s.subrange(m + 6, q);
                            let rest = links_from(s, m + 6);
                            if is_http(link) {
                                seq![link] + rest
                            } else {
                                rest
                            }
                        }
                    },
                }
            }
        },
    }
}

/// What `extract_links` returns.
pub open spec fn links_spec(s: Seq<char>) -> Seq<Seq<char>> {
    links_from(s, 0)
}

/// The absolute (`http`-prefixed) `href` targets of the document in order
/// of appearance, duplicates kept, per `links_spec`.
pub fn extract_links(html: &str) -> (r: Vec<String>)
    ensures
        r@.len() == links_spec(html@).len(),
        forall|i: int| 0 <= i < r@.len() ==> r@[i]@ == links_spec(html@)[i],
{
    let cs = str_to_chars(html);
    let marker = str_to_chars("href=\"");
    proof {
        reveal_strlit("href=\"");
    }
    let mut r: Vec<String> = Vec::new();
    let ghost mut done: Seq<Seq<char>> = seq![];
    let n = cs.len();
    let mut pos: usize = 0;
    loop
        invariant_except_break
            n == cs@.len(),
            pos <= cs@.len(),
            cs@ == html@,
            marker@ == href_marker(),
            marker@.len() == 6,
            links_spec(html@) == done + links_from(cs@, pos as int),
            r@.len() == done.len(),
            forall|i: int| 0 <= i < done.len() ==> r@[i]@ == done[i],
        ensures
            r@.len() == links_spec(html@).len(),
            forall|i: int| 0 <= i < r@.len() ==> r@[i]@ == links_spec(html@)[i],
        decreases cs@.len() - pos,
    {
        match find_pat(cs.as_slice(), marker.as_slice(), pos) {
            None => {
                proof {
                    assert(links_spec(html@) =~= done);
                }
                break;
            },
            Some(m) => {
                proof {
                    lemma_find_from_some(cs@, marker@, pos as int, m as int);
                }
                let vs = m + 6;
                match find_char(cs.as_slice(), '"', vs) {
                    None => {
                        proof {
                            assert(links_from(cs@, pos as int) =~= Seq::<Seq<char>>::empty());
                            assert(links_spec(html@) =~= done);
                        }
                        break;
                    },
                    Some(q) => {
                        let ghost link = cs@.subrange(vs as int, q as int);
                        let is_abs = q - vs >= 4 && cs[vs] == 'h' && cs[vs + 1] == 't' && cs[vs
                            + 2] == 't' && cs[vs + 3] == 'p';
                        proof {
                            assert(is_abs == is_http(link));
                        }
                        if is_abs {
                            let lc = copy_range(cs.as_slice(), vs, q);
                            r.push(chars_to_string(lc.as_slice()));
                            proof {
                                assert(done + (seq![link] + links_from(cs@, vs as int)) =~= done.push(
                                    link,
                                ) + links_from(cs@, vs as int));
                                done = done.push(link);
                            }
                        }
                        pos = vs;
                    },
                }
            },
        }
    }
    r
}

} // verus!
