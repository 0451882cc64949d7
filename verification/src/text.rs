//! Visible-text extraction: one forward pass drops everything between `<`
//! and `>`, then the kept text is split into lines, each line is trimmed,
//! empty lines are discarded, and the survivors are joined with single
//! spaces. A word count over the joined text is also provided.

use vstd::prelude::*;

use crate::scan::{
    chars_to_string, is_ws, is_ws_char, str_to_chars, trim_range, trim_spec,
};

verus! {

/// The characters kept when scanning `s` from position `i` with the given
/// inside-tag state: `<` enters a tag, `>` leaves it, and characters inside
/// a tag are dropped. The two tag delimiters themselves are never kept.
pub open spec fn strip_from(s: Seq<char>, i: int, in_tag: bool) -> Seq<char>
    decreases s.len() - i,
{
    if i < 0 || i >= s.len() {
        seq![]
    } else if s[i] == '<' {
        strip_from(s, i + 1, true)
    } else if s[i] == '>' {
        strip_from(s, i + 1, false)
    } else if in_tag {
        strip_from(s, i + 1, in_tag)
    } else {
        seq![s[i]] + strip_from(s, i + 1, in_tag)
    }
}

/// All markup-free text of the document, in order.
pub open spec fn strip_tags(s: Seq<char>) -> Seq<char> {
    strip_from(s, 0, false)
}

/// The lines of `s` split at `'\n'`, scanning at `i` with the current line
/// begun at `start`. The final line is yielded even when it is empty.
pub open spec fn lines_from(s: Seq<char>, start: int, i: int) -> Seq<Seq<char>>
    decreases s.len() - i,
{
    if !(0 <= start <= i <= s.len()) {
        seq![]
    } else if i == s.len() {
        seq![s.subrange(start, i)]
    } else if s[i] == '\n' {
        seq![s.subrange(start, i)] + lines_from(s, i + 1, i + 1)
    } else {
        lines_from(s, start, i + 1)
    }
}

/// The lines of `s`, split at `'\n'`.
pub open spec fn lines_of(s: Seq<char>) -> Seq<Seq<char>> {
    lines_from(s, 0, 0)
}

/// Each line trimmed, empty lines dropped, the survivors joined with one
/// space between neighbours.
pub open spec fn clean_join(ls: Seq<Seq<char>>) -> Seq<char>
    decreases ls.len(),
{
    if ls.len() == 0 {
        seq![]
    } else {
        let front = clean_join(ls.drop_last());
        let t = trim_spec(ls.last());
        if t.len() == 0 {
            front
        } else if front.len() == 0 {
            t
        } else {
            front + seq![' '] + t
        }
    }
}

/// What `extract_text_content` returns.
pub open spec fn text_spec(s: Seq<char>) -> Seq<char> {
    clean_join(lines_of(strip_tags(s)))
}

/// The number of maximal runs of non-white-space characters at or after
/// `i`, given whether such a run is already open at `i`.
pub open spec fn words_from(s: Seq<char>, i: int, in_word: bool) -> int
    decreases s.len() - i,
{
    if i < 0 || i >= s.len() {
        0
    } else {
        let w = !is_ws(s[i]);
        (if w && !in_word {
            1int
        } else {
            0int
        }) + words_from(s, i + 1, w)
    }
}

/// The number of white-space-delimited words of `s`.
pub open spec fn word_count_spec(s: Seq<char>) -> int {
    words_from(s, 0, false)
}

/// The markup-free characters of `cs`, per `strip_tags`.
#[verifier::loop_isolation(false)]
fn strip_tags_exec(cs: &[char]) -> (r: Vec<char>)
    ensures
        r@ == strip_tags(cs@),
{
    let mut r: Vec<char> = Vec::new();
    let mut in_tag = false;
    let mut i: usize = 0;
    while i < cs.len()
        invariant
            i <= cs@.len(),
            strip_tags(cs@) == r@ + strip_from(cs@, i as int, in_tag),
        decreases cs.len() - i,
    {
        let c = cs[i];
        if c == '<' {
            in_tag = true;
        } else if c == '>' {
            in_tag = false;
        } else if !in_tag {
            r.push(c);
        }
        i = i + 1;
        proof {
            assert(strip_tags(cs@) =~= r@ + strip_from(cs@, i as int, in_tag));
        }
    }
    proof {
        assert(strip_tags(cs@) =~= r@);
    }
    r
}

/// Appends all of `src` to `dst`.
#[verifier::loop_isolation(false)]
fn append_chars(dst: &mut Vec<char>, src: &[char])
    ensures
        final(dst)@ == old(dst)@ + src@,
{
    let mut j: usize = 0;
    while j < src.len()
        invariant
            j <= src@.len(),
            dst@ == old(dst)@ + src@.subrange(0, j as int),
        decreases src.len() - j,
    {
        dst.push(src[j]);
        j = j + 1;
        proof {
            assert(dst@ =~= old(dst)@ + src@.subrange(0, j as int));
        }
    }
    proof {
        assert(dst@ =~= old(dst)@ + src@);
    }
}

/// Trims the lines of `t`, drops the empty ones, and joins the rest with
/// single spaces, per `clean_join` over `lines_of`.
fn clean_text(t: &[char]) -> (r: Vec<char>)
    ensures
        r@ == clean_join(lines_of(t@)),
{
    let mut acc: Vec<char> = Vec::new();
    let ghost mut done: Seq<Seq<char>> = seq![];
    let mut start: usize = 0;
    let mut i: usize = 0;
    loop
        invariant_except_break
            start <= i <= t@.len(),
            lines_of(t@) == done + lines_from(t@, start as int, i as int),
            acc@ == clean_join(done),
        ensures
            acc@ == clean_join(lines_of(t@)),
        decreases t@.len() + 1 - i,
    {
        if i == t.len() || t[i] == '\n' {
            let ghost rawline = t@.subrange(start as int, i as int);
            let line = trim_range(t, start, i);
            proof {
                assert(done.push(rawline).drop_last() =~= done);
            }
            if line.len() > 0 {
                if acc.len() > 0 {
                    acc.push(' ');
                    proof {
                        assert(acc@ =~= clean_join(done) + seq![' ']);
                    }
                }
                append_chars(&mut acc, line.as_slice());
            }
            proof {
                done = done.push(rawline);
                assert(acc@ == clean_join(done));
            }
            if i == t.len() {
                proof {
                    assert(lines_of(t@) =~= done);
                }
                break;
            }
            proof {
                assert(done + (seq![rawline] + lines_from(t@, i + 1, i + 1)) =~= done.push(
                    rawline,
                ) + lines_from(t@, i + 1, i + 1));
            }
            i = i + 1;
            start = i;
        } else {
            i = i + 1;
        }
    }
    acc
}

/// The visible text of the document, per `text_spec`.
pub fn extract_text_content(html: &str) -> (r: String)
    ensures
        r@ == text_spec(html@),
{
    let cs = str_to_chars(html);
    let stripped = strip_tags_exec(cs.as_slice());
    let cleaned = clean_text(stripped.as_slice());
    chars_to_string(cleaned.as_slice())
}

/// The number of white-space-delimited words of `text`.
#[verifier::loop_isolation(false)]
pub fn word_count(text: &str) -> (n: usize)
    ensures
        n == word_count_spec(text@),
{
    let cs = str_to_chars(text);
    let mut n: usize = 0;
    let mut in_word = false;
    let mut i: usize = 0;
    while i < cs.len()
        invariant
            i <= cs@.len(),
            n <= i,
            n as int + words_from(cs@, i as int, in_word) == word_count_spec(cs@),
        decreases cs.len() - i,
    {
        let w = !is_ws_char(cs[i]);
        if w && !in_word {
            n = n + 1;
        }
        in_word = w;
        i = i + 1;
    }
    n
}

} // verus!
