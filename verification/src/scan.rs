//! Shared scanning primitives: white-space classification, first-occurrence
//! substring and character search, trimming, and conversions between `&str`
//! and character vectors. Every extractor is built from these.

use vstd::prelude::*;
use vstd::string::StrSliceExecFns;

verus! {

/// The Unicode white-space characters, exactly those that
/// `char::is_whitespace` accepts.
pub open spec fn is_ws(c: char) -> bool {
    let u = c as u32;
    u == 0x20 || u == 0x09 || u == 0x0a || u == 0x0d || u == 0x0b || u == 0x0c
        || u == 0x85 || u == 0xa0 || u == 0x1680 || (0x2000 <= u && u <= 0x200a)
        || u == 0x2028 || u == 0x2029 || u == 0x202f || u == 0x205f || u == 0x3000
}

/// Decides `is_ws`.
pub fn is_ws_char(c: char) -> (b: bool)
    ensures
        b == is_ws(c),
{
    let u = c as u32;
    u == 0x20 || u == 0x09 || u == 0x0a || u == 0x0d || u == 0x0b || u == 0x0c
        || u == 0x85 || u == 0xa0 || u == 0x1680 || (0x2000 <= u && u <= 0x200a)
        || u == 0x2028 || u == 0x2029 || u == 0x202f || u == 0x205f || u == 0x3000
}

/// `pat` occurs in `s` starting at position `i`.
pub open spec fn occurs_at(s: Seq<char>, pat: Seq<char>, i: int) -> bool {
    &&& 0 <= i
    &&& i + pat.len() <= s.len()
    &&& forall|k: int| 0 <= k < pat.len() ==> s[i + k] == pat[k]
}

/// The position of the first occurrence of `pat` in `s` at or after `from`,
/// if any.
pub open spec fn find_from(s: Seq<char>, pat: Seq<char>, from: int) -> Option<int>
    decreases s.len() - from,
{
    if from + pat.len() > s.len() {
        None
    } else if from >= 0 && occurs_at(s, pat, from) {
        Some(from)
    } else {
        find_from(s, pat, from + 1)
    }
}

/// The position of the first occurrence of the character `c` in `s` at or
/// after `from`, if any.
pub open spec fn find_char_from(s: Seq<char>, c: char, from: int) -> Option<int>
    decreases s.len() - from,
{
    if from >= s.len() {
        None
    } else if from >= 0 && s[from] == c {
        Some(from)
    } else {
        find_char_from(s, c, from + 1)
    }
}

/// A found position is the first one: it is in range, the pattern occurs
/// there, and it occurs nowhere earlier at or after `from`.
pub proof fn lemma_find_from_some(s: Seq<char>, pat: Seq<char>, from: int, i: int)
    requires
        find_from(s, pat, from) == Some(i),
    ensures
        from <= i,
        occurs_at(s, pat, i),
        forall|j: int| from <= j < i ==> !occurs_at(s, pat, j),
    decreases s.len() - from,
{
    if from + pat.len() > s.len() {
    } else if from >= 0 && occurs_at(s, pat, from) {
    } else {
        lemma_find_from_some(s, pat, from + 1, i);
    }
}

/// An occurrence with no earlier occurrence is what the search returns.
pub proof fn lemma_find_from_at(s: Seq<char>, pat: Seq<char>, from: int, i: int)
    requires
        from <= i,
        occurs_at(s, pat, i),
        forall|j: int| from <= j < i ==> !occurs_at(s, pat, j),
    ensures
        find_from(s, pat, from) == Some(i),
    decreases i - from,
{
    if from < i {
        lemma_find_from_at(s, pat, from + 1, i);
    }
}

/// When the pattern occurs nowhere at or after `from`, the search fails.
pub proof fn lemma_find_from_none_of(s: Seq<char>, pat: Seq<char>, from: int)
    requires
        forall|j: int| from <= j ==> !occurs_at(s, pat, j),
    ensures
        find_from(s, pat, from) is None,
    decreases s.len() - from,
{
    if from + pat.len() > s.len() {
    } else {
        lemma_find_from_none_of(s, pat, from + 1);
    }
}

/// A position holding `c` with no earlier one is what the search returns.
pub proof fn lemma_find_char_at(s: Seq<char>, c: char, from: int, i: int)
    requires
        from <= i,
        0 <= i < s.len(),
        s[i] == c,
        forall|j: int| from <= j < i && j >= 0 ==> s[j] != c,
    ensures
        find_char_from(s, c, from) == Some(i),
    decreases i - from,
{
    if from < i {
        lemma_find_char_at(s, c, from + 1, i);
    }
}

/// When `c` is nowhere at or after `from`, the character search fails.
pub proof fn lemma_find_char_none_of(s: Seq<char>, c: char, from: int)
    requires
        forall|j: int| from <= j < s.len() && j >= 0 ==> s[j] != c,
    ensures
        find_char_from(s, c, from) is None,
    decreases s.len() - from,
{
    if from >= s.len() {
    } else {
        lemma_find_char_none_of(s, c, from + 1);
    }
}

/// First occurrence of `pat` in `hay` at or after `from`, scanning forward.
#[verifier::loop_isolation(false)]
pub fn find_pat(hay: &[char], pat: &[char], from: usize) -> (r: Option<usize>)
    ensures
        (match r {
            Some(i) => from <= i && find_from(hay@, pat@, from as int) == Some(i as int),
            None => find_from(hay@, pat@, from as int) is None,
        }),
{
    if pat.len() > hay.len() || from > hay.len() - pat.len() {
        proof {
            assert(forall|j: int| from <= j ==> !occurs_at(hay@, pat@, j));
            lemma_find_from_none_of(hay@, pat@, from as int);
        }
        return None;
    }
    let last = hay.len() - pat.len();
    let mut i: usize = from;
    while i <= last
        invariant
            from <= i,
            forall|j: int| from <= j < i ==> !occurs_at(hay@, pat@, j),
        decreases last + 1 - i,
    {
        let mut k: usize = 0;
        let mut ok = true;
        while ok && k < pat.len()
            invariant
                k <= pat.len(),
                i + pat.len() <= hay.len(),
                ok ==> forall|t: int| 0 <= t < k ==> hay@[i + t] == pat@[t],
                !ok ==> !occurs_at(hay@, pat@, i as int),
            decreases pat.len() - k + (if ok { 1int } else { 0int }),
        {
            if hay[i + k] != pat[k] {
                ok = false;
            } else {
                k = k + 1;
            }
        }
        if ok {
            proof {
                assert(occurs_at(hay@, pat@, i as int));
                lemma_find_from_at(hay@, pat@, from as int, i as int);
            }
            return Some(i);
        }
        i = i + 1;
    }
    proof {
        assert(forall|j: int| from <= j ==> !occurs_at(hay@, pat@, j));
        lemma_find_from_none_of(hay@, pat@, from as int);
    }
    None
}

/// First position of the character `c` in `hay` at or after `from`.
#[verifier::loop_isolation(false)]
pub fn find_char(hay: &[char], c: char, from: usize) -> (r: Option<usize>)
    ensures
        (match r {
            Some(i) => {
                &&& from <= i < hay@.len()
                &&& hay@[i as int] == c
                &&& find_char_from(hay@, c, from as int) == Some(i as int)
            },
            None => find_char_from(hay@, c, from as int) is None,
        }),
{
    let mut i: usize = from;
    while i < hay.len()
        invariant
            from <= i,
            forall|j: int| from <= j < i ==> hay@[j] != c,
        decreases hay.len() - i,
    {
        if hay[i] == c {
            proof {
                lemma_find_char_at(hay@, c, from as int, i as int);
            }
            return Some(i);
        }
        i = i + 1;
    }
    proof {
        lemma_find_char_none_of(hay@, c, from as int);
    }
    None
}

/// The characters of `s`, in order.
#[verifier::loop_isolation(false)]
pub fn str_to_chars(s: &str) -> (v: Vec<char>)
    ensures
        v@ == s@,
{
    let n = s.unicode_len();
    let mut v: Vec<char> = Vec::new();
    let mut i: usize = 0;
    while i < n
        invariant
            i <= n,
            n == s@.len(),
            v@ == s@.subrange(0, i as int),
        decreases n - i,
    {
        let c = s.get_char(i);
        v.push(c);
        i = i + 1;
        proof {
            assert(v@ =~= s@.subrange(0, i as int));
        }
    }
    proof {
        assert(v@ =~= s@);
    }
    v
}

/// Whether two strings hold the same characters.
#[verifier::loop_isolation(false)]
pub fn str_eq(a: &str, b: &str) -> (r: bool)
    ensures
        r == (a@ == b@),
{
    let na = a.unicode_len();
    let nb = b.unicode_len();
    if na != nb {
        return false;
    }
    let mut i: usize = 0;
    while i < na
        invariant
            i <= na,
            na == a@.len() && na == b@.len(),
            forall|j: int| 0 <= j < i ==> a@[j] == b@[j],
        decreases na - i,
    {
        if a.get_char(i) != b.get_char(i) {
            return false;
        }
        i = i + 1;
    }
    proof {
        assert(a@ =~= b@);
    }
    true
}

/// Relies on `String::push`: it appends exactly the one character `c` at the
/// end of `s`.
#[verifier::external_body]
fn push_char(s: &mut String, c: char)
    ensures
        final(s)@ == old(s)@.push(c),
{
    s.push(c);
}

/// A `String` holding exactly the characters of `v`.
#[verifier::loop_isolation(false)]
pub fn chars_to_string(v: &[char]) -> (s: String)
    ensures
        s@ == v@,
{
    let mut s = String::new();
    let mut i: usize = 0;
    while i < v.len()
        invariant
            i <= v@.len(),
            s@ == v@.subrange(0, i as int),
        decreases v.len() - i,
    {
        push_char(&mut s, v[i]);
        i = i + 1;
        proof {
            assert(s@ =~= v@.subrange(0, i as int));
        }
    }
    proof {
        assert(s@ =~= v@);
    }
    s
}

/// A copy of `v[lo..hi]`.
#[verifier::loop_isolation(false)]
pub fn copy_range(v: &[char], lo: usize, hi: usize) -> (r: Vec<char>)
    requires
        lo <= hi <= v@.len(),
    ensures
        r@ == v@.subrange(lo as int, hi as int),
{
    let mut r: Vec<char> = Vec::new();
    let mut i: usize = lo;
    while i < hi
        invariant
            lo <= i <= hi,
            r@ == v@.subrange(lo as int, i as int),
        decreases hi - i,
    {
        r.push(v[i]);
        i = i + 1;
        proof {
            assert(r@ =~= v@.subrange(lo as int, i as int));
        }
    }
    r
}

/// `s` with leading white-space removed.
pub open spec fn trim_start(s: Seq<char>) -> Seq<char>
    decreases s.len(),
{
    if s.len() > 0 && is_ws(s[0]) {
        trim_start(s.drop_first())
    } else {
        s
    }
}

/// `s` with trailing white-space removed.
pub open spec fn trim_end(s: Seq<char>) -> Seq<char>
    decreases s.len(),
{
    if s.len() > 0 && is_ws(s.last()) {
        trim_end(s.drop_last())
    } else {
        s
    }
}

/// `s` with surrounding white-space removed, as `str::trim` trims it.
pub open spec fn trim_spec(s: Seq<char>) -> Seq<char> {
    trim_end(trim_start(s))
}

/// The trimmed copy of `v[lo..hi]`.
#[verifier::loop_isolation(false)]
pub fn trim_range(v: &[char], lo: usize, hi: usize) -> (r: Vec<char>)
    requires
        lo <= hi <= v@.len(),
    ensures
        r@ == trim_spec(v@.subrange(lo as int, hi as int)),
{
    let ghost whole = v@.subrange(lo as int, hi as int);
    let mut a: usize = lo;
    while a < hi && is_ws_char(v[a])
        invariant
            lo <= a <= hi,
            trim_start(whole) == trim_start(v@.subrange(a as int, hi as int)),
        decreases hi - a,
    {
        proof {
            assert(v@.subrange(a as int, hi as int).drop_first() =~= v@.subrange(
                a as int + 1,
                hi as int,
            ));
        }
        a = a + 1;
    }
    proof {
        assert(trim_start(whole) == v@.subrange(a as int, hi as int));
    }
    let mut b: usize = hi;
    while b > a && is_ws_char(v[b - 1])
        invariant
            a <= b <= hi,
            trim_end(v@.subrange(a as int, hi as int)) == trim_end(
                v@.subrange(a as int, b as int),
            ),
        decreases b - a,
    {
        proof {
            assert(v@.subrange(a as int, b as int).drop_last() =~= v@.subrange(
                a as int,
                b as int - 1,
            ));
        }
        b = b - 1;
    }
    proof {
        assert(trim_spec(whole) == v@.subrange(a as int, b as int));
    }
    let mut r: Vec<char> = Vec::new();
    let mut i: usize = a;
    while i < b
        invariant
            a <= i <= b,
            r@ == v@.subrange(a as int, i as int),
        decreases b - i,
    {
        r.push(v[i]);
        i = i + 1;
        proof {
            assert(r@ =~= v@.subrange(a as int, i as int));
        }
    }
    r
}

} // verus!
