//! Meta-tag extraction: each `<meta` marker is bounded by the next `>`, the
//! `name="…"` and `content="…"` attributes inside the bounded text are
//! captured, and complete pairs build a mapping in which the last occurrence
//! of a name wins. A `<meta` with no closing `>` ends the whole scan.

use vstd::prelude::*;

use crate::scan::{
    chars_to_string, copy_range, find_char, find_char_from, find_from, find_pat,
    lemma_find_from_some, str_eq, str_to_chars,
};

verus! {

/// The literal element marker the scanner looks for.
pub open spec fn meta_marker() -> Seq<char> {
    "<meta"@
}

/// The literal name-attribute marker inside a bounded tag.
pub open spec fn name_marker() -> Seq<char> {
    "name=\""@
}

/// The literal content-attribute marker inside a bounded tag.
pub open spec fn content_marker() -> Seq<char> {
    "content=\""@
}

/// The name/content pair of one bounded tag text: the text after the first
/// `name="` up to the next `"`, and the text after the first `content="` up
/// to the next `"`. Both attributes must be present and closed, else the
/// tag yields nothing.
pub open spec fn pair_of_tag(tag: Seq<char>) -> Option<(Seq<char>, Seq<char>)> {
    match find_from(tag, name_marker(), 0) {
        None => None,
        Some(ns) => match find_char_from(tag, '"', ns + 6) {
            None => None,
            Some(ne) => match find_from(tag, content_marker(), 0) {
                None => None,
                Some(cp) => match find_char_from(tag, '"', cp + 9) {
                    None => None,
                    Some(ce) => Some((tag.subrange(ns + 6, ne), tag.subrange(cp + 9, ce))),
                },
            },
        },
    }
}

/// The complete name/content pairs of the document in order, scanning at or
/// after `from`: each `<meta` marker is bounded by the next `>`, the pair of
/// the bounded text is taken when complete, and the scan resumes past the
/// `>`. No marker, or a marker with no `>` after it, ends the scan.
pub open spec fn meta_pairs_from(s: Seq<char>, from: int) -> Seq<(Seq<char>, Seq<char>)>
    decreases s.len() - from,
{
    match find_from(s, meta_marker(), from) {
        None => seq![],
        Some(m) => {
            if m < from {
                seq![]
            } else {
                match find_char_from(s, '>', m) {
                    None => seq![],
                    Some(g) => {
                        if g < m || g >= s.len() {
                            seq![]
                        } else {
                            let tag = s.subrange(m, g + 1);
                            let rest = meta_pairs_from(s, g + 1);
                            match pair_of_tag(tag) {
                                None => rest,
                                Some(p) => seq![p] + rest,
                            }
                        }
                    },
                }
            }
        },
    }
}

/// The complete name/content pairs of the document, in document order.
pub open spec fn meta_pairs(s: Seq<char>) -> Seq<(Seq<char>, Seq<char>)> {
    meta_pairs_from(s, 0)
}

/// The mapping a sequence of pairs builds up in order: a later pair with
/// the same name overwrites an earlier one.
pub open spec fn map_of_pairs(ps: Seq<(Seq<char>, Seq<char>)>) -> Map<Seq<char>, Seq<char>>
    decreases ps.len(),
{
    if ps.len() == 0 {
        Map::empty()
    } else {
        map_of_pairs(ps.drop_last()).insert(ps.last().0, ps.last().1)
    }
}

/// What `extract_meta_tags` returns.
pub open spec fn meta_spec(s: Seq<char>) -> Map<Seq<char>, Seq<char>> {
    map_of_pairs(meta_pairs(s))
}

/// No name occurs twice among the pairs.
pub open spec fn unique_keys(ps: Seq<(Seq<char>, Seq<char>)>) -> bool {
    forall|i: int, j: int| 0 <= i < j < ps.len() ==> ps[i].0 != ps[j].0
}

/// The built mapping holds a name exactly when some pair carries it.
pub proof fn lemma_map_of_pairs_dom(ps: Seq<(Seq<char>, Seq<char>)>, k: Seq<char>)
    ensures
        map_of_pairs(ps).contains_key(k) <==> exists|i: int| 0 <= i < ps.len() && ps[i].0 == k,
    decreases ps.len(),
{
    if ps.len() == 0 {
    } else {
        let pre = ps.drop_last();
        lemma_map_of_pairs_dom(pre, k);
        if ps.last().0 == k {
            assert(ps[ps.len() - 1].0 == k);
        } else {
            if map_of_pairs(ps).contains_key(k) {
                let i = choose|i: int| 0 <= i < pre.len() && pre[i].0 == k;
                assert(ps[i].0 == k);
            }
            if exists|i: int| 0 <= i < ps.len() && ps[i].0 == k {
                let i = choose|i: int| 0 <= i < ps.len() && ps[i].0 == k;
                assert(i < ps.len() - 1);
                assert(pre[i].0 == k);
            }
        }
    }
}

/// Last write wins: the value at a name is the content of the last pair
/// carrying that name.
pub proof fn lemma_map_of_pairs_last(ps: Seq<(Seq<char>, Seq<char>)>, i: int)
    requires
        0 <= i < ps.len(),
        forall|j: int| i < j < ps.len() ==> ps[j].0 != ps[i].0,
    ensures
        map_of_pairs(ps).contains_key(ps[i].0),
        map_of_pairs(ps)[ps[i].0] == ps[i].1,
    decreases ps.len(),
{
    if i == ps.len() - 1 {
    } else {
        let pre = ps.drop_last();
        assert(forall|j: int| i < j < pre.len() ==> pre[j].0 != pre[i].0);
        lemma_map_of_pairs_last(pre, i);
        assert(ps.last().0 != ps[i].0);
    }
}

/// With unique names, the mapping holds exactly as many names as there are
/// pairs.
pub proof fn lemma_map_of_pairs_len(ps: Seq<(Seq<char>, Seq<char>)>)
    requires
        unique_keys(ps),
    ensures
        map_of_pairs(ps).dom().finite(),
        map_of_pairs(ps).dom().len() == ps.len(),
    decreases ps.len(),
{
    if ps.len() == 0 {
        assert(map_of_pairs(ps).dom() =~= Set::<Seq<char>>::empty());
    } else {
        let pre = ps.drop_last();
        let k = ps.last().0;
        assert(forall|j: int| 0 <= j < pre.len() ==> pre[j] == ps[j]);
        assert forall|a: int, b: int| 0 <= a < b < pre.len() implies pre[a].0 != pre[b].0 by {
            assert(ps[a].0 != ps[b].0);
        }
        lemma_map_of_pairs_len(pre);
        lemma_map_of_pairs_dom(pre, k);
        if map_of_pairs(pre).contains_key(k) {
            let j = choose|j: int| 0 <= j < pre.len() && pre[j].0 == k;
            assert(ps[j].0 == ps[ps.len() - 1].0);
            assert(false);
        }
        assert(map_of_pairs(ps).dom() =~= map_of_pairs(pre).dom().insert(k));
        vstd::set::axiom_set_insert_finite(map_of_pairs(pre).dom(), k);
        vstd::set::axiom_set_insert_len(map_of_pairs(pre).dom(), k);
    }
}

/// Overwriting the one entry of a name leaves the other names' values in
/// place and maps that name to the new content.
proof fn lemma_insert_overwrite(ps: Seq<(Seq<char>, Seq<char>)>, i: int, v: Seq<char>)
    requires
        unique_keys(ps),
        0 <= i < ps.len(),
    ensures
        unique_keys(ps.remove(i).push((ps[i].0, v))),
        map_of_pairs(ps.remove(i).push((ps[i].0, v))) == map_of_pairs(ps).insert(ps[i].0, v),
{
    let k = ps[i].0;
    let qs = ps.remove(i);
    let rs = qs.push((k, v));
    assert(forall|j: int| 0 <= j < i ==> qs[j] == ps[j]);
    assert(forall|j: int| i <= j < qs.len() ==> qs[j] == ps[j + 1]);
    assert forall|j: int| 0 <= j < qs.len() implies qs[j].0 != k by {
        if j < i {
            assert(ps[j].0 != ps[i].0);
        } else {
            assert(ps[i].0 != ps[j + 1].0);
        }
    }
    assert forall|a: int, b: int| 0 <= a < b < qs.len() implies qs[a].0 != qs[b].0 by {
        if b < i {
            assert(ps[a].0 != ps[b].0);
        } else if a < i {
            assert(ps[a].0 != ps[b + 1].0);
        } else {
            assert(ps[a + 1].0 != ps[b + 1].0);
        }
    }
    assert(unique_keys(rs));
    let m1 = map_of_pairs(rs);
    let m2 = map_of_pairs(ps).insert(k, v);
    lemma_map_of_pairs_last(rs, rs.len() - 1);
    assert forall|c: Seq<char>| m1.contains_key(c) implies m2.contains_key(c) by {
        lemma_map_of_pairs_dom(rs, c);
        let j = choose|j: int| 0 <= j < rs.len() && rs[j].0 == c;
        if j < rs.len() - 1 {
            let jp = if j < i {
                j
            } else {
                j + 1
            };
            assert(ps[jp].0 == c);
            lemma_map_of_pairs_dom(ps, c);
        }
    }
    assert forall|c: Seq<char>| m2.contains_key(c) implies m1.contains_key(c) by {
        if c != k {
            lemma_map_of_pairs_dom(ps, c);
            let jp = choose|j: int| 0 <= j < ps.len() && ps[j].0 == c;
            let j = if jp < i {
                jp
            } else {
                jp - 1
            };
            assert(rs[j].0 == c);
            lemma_map_of_pairs_dom(rs, c);
        }
    }
    assert forall|c: Seq<char>| m1.contains_key(c) && m2.contains_key(c) && c != k implies m1[c]
        == m2[c] by {
        lemma_map_of_pairs_dom(ps, c);
        let jp = choose|j: int| 0 <= j < ps.len() && ps[j].0 == c;
        assert forall|t: int| jp < t < ps.len() implies ps[t].0 != ps[jp].0 by {
            assert(ps[jp].0 != ps[t].0);
        }
        lemma_map_of_pairs_last(ps, jp);
        let j = if jp < i {
            jp
        } else {
            jp - 1
        };
        assert(rs[j].0 == c);
        assert(rs[j].1 == ps[jp].1);
        assert forall|t: int| j < t < rs.len() implies rs[t].0 != rs[j].0 by {}
        lemma_map_of_pairs_last(rs, j);
    }
    assert(m1 =~= m2);
}

/// A name-to-content mapping with unique names and overwrite-on-duplicate
/// insertion, backed by a vector of pairs.
pub struct MetaMap {
    entries: Vec<(String, String)>,
}

impl View for MetaMap {
    type V = Map<Seq<char>, Seq<char>>;

    /// The mapping the entries build up, in insertion order.
    closed spec fn view(&self) -> Map<Seq<char>, Seq<char>> {
        map_of_pairs(self.pairs())
    }
}

impl MetaMap {
    /// The entries as mathematical pairs, in insertion order.
    pub closed spec fn pairs(&self) -> Seq<(Seq<char>, Seq<char>)> {
        self.entries@.map_values(|e: (String, String)| (e.0@, e.1@))
    }

    /// Each name occurs at most once among the entries.
    pub open spec fn wf(&self) -> bool {
        unique_keys(self.pairs())
    }

    /// The empty mapping.
    pub fn new() -> (m: MetaMap)
        ensures
            m@ == Map::<Seq<char>, Seq<char>>::empty(),
            m.pairs() == Seq::<(Seq<char>, Seq<char>)>::empty(),
            m.wf(),
    {
        let m = MetaMap { entries: Vec::new() };
        proof {
            assert(m.pairs() =~= Seq::<(Seq<char>, Seq<char>)>::empty());
        }
        m
    }

    /// The number of entries; under `wf`, the number of names mapped.
    pub fn len(&self) -> (n: usize)
        ensures
            n == self.pairs().len(),
            self.wf() ==> n == self@.dom().len(),
    {
        proof {
            if self.wf() {
                lemma_map_of_pairs_len(self.pairs());
            }
        }
        self.entries.len()
    }

    /// Maps `name` to `content`, overwriting the entry of an equal name.
    #[verifier::loop_isolation(false)]
    pub fn insert(&mut self, name: String, content: String)
        requires
            old(self).wf(),
        ensures
            final(self).wf(),
            final(self)@ == old(self)@.insert(name@, content@),
    {
        let n = self.entries.len();
        let mut i: usize = 0;
        while i < n
            invariant
                i <= n,
                n == self.entries@.len(),
                self.entries == old(self).entries,
                forall|j: int| 0 <= j < i ==> self.pairs()[j].0 != name@,
            decreases n - i,
        {
            if str_eq(self.entries[i].0.as_str(), name.as_str()) {
                let ghost ops = old(self).pairs();
                let _ = self.entries.remove(i);
                self.entries.push((name, content));
                proof {
                    assert(self.pairs() =~= ops.remove(i as int).push((name@, content@)));
                    assert(name@ == ops[i as int].0);
                    lemma_insert_overwrite(ops, i as int, content@);
                }
                return ;
            }
            i = i + 1;
        }
        self.entries.push((name, content));
        proof {
            assert(self.pairs() =~= old(self).pairs().push((name@, content@)));
            assert(self.pairs().drop_last() =~= old(self).pairs());
            assert(unique_keys(self.pairs()));
        }
    }

    /// The content mapped to `name`, when present.
    #[verifier::loop_isolation(false)]
    pub fn get(&self, name: &str) -> (r: Option<String>)
        requires
            self.wf(),
        ensures
            (match r {
                Some(c) => self@.contains_key(name@) && c@ == self@[name@],
                None => !self@.contains_key(name@),
            }),
    {
        let n = self.entries.len();
        let mut i: usize = 0;
        while i < n
            invariant
                i <= n,
                n == self.entries@.len(),
                forall|j: int| 0 <= j < i ==> self.pairs()[j].0 != name@,
            decreases n - i,
        {
            if str_eq(self.entries[i].0.as_str(), name) {
                let c = self.entries[i].1.clone();
                proof {
                    assert forall|j: int| i < j < self.pairs().len() implies self.pairs()[j].0
                        != self.pairs()[i as int].0 by {}
                    lemma_map_of_pairs_last(self.pairs(), i as int);
                }
                return Some(c);
            }
            i = i + 1;
        }
        proof {
            lemma_map_of_pairs_dom(self.pairs(), name@);
        }
        None
    }

    /// The entries, in insertion order.
    pub fn entries(&self) -> (r: &Vec<(String, String)>)
        ensures
            r@.len() == self.pairs().len(),
            forall|j: int| 0 <= j < r@.len() ==> (#[trigger] r@[j]).0@ == self.pairs()[j].0
                && r@[j].1@ == self.pairs()[j].1,
    {
        &self.entries
    }
}

/// The name/content pair of one bounded tag text, per `pair_of_tag`.
fn tag_pair(tag: &[char]) -> (r: Option<(String, String)>)
    ensures
        (match r {
            Some(p) => pair_of_tag(tag@) == Some((p.0@, p.1@)),
            None => pair_of_tag(tag@) is None,
        }),
{
    let tl = tag.len();
    let nm = str_to_chars("name=\"");
    let cm = str_to_chars("content=\"");
    proof {
        reveal_strlit("name=\"");
        reveal_strlit("content=\"");
    }
    match find_pat(tag, nm.as_slice(), 0) {
        None => None,
        Some(ns) => {
            proof {
                lemma_find_from_some(tag@, nm@, 0, ns as int);
            }
            match find_char(tag, '"', ns + 6) {
                None => None,
                Some(ne) => match find_pat(tag, cm.as_slice(), 0) {
                    None => None,
                    Some(cp) => {
                        proof {
                            lemma_find_from_some(tag@, cm@, 0, cp as int);
                        }
                        match find_char(tag, '"', cp + 9) {
                            None => None,
                            Some(ce) => {
                                let namev = copy_range(tag, ns + 6, ne);
                                let contv = copy_range(tag, cp + 9, ce);
                                Some((
                                    chars_to_string(namev.as_slice()),
                                    chars_to_string(contv.as_slice()),
                                ))
                            },
                        }
                    },
                },
            }
        },
    }
}

/// The name/content mapping of the document's meta tags, per `meta_spec`:
/// a later tag with the same name overwrites an earlier one.
pub fn extract_meta_tags(html: &str) -> (m: MetaMap)
    ensures
        m@ == meta_spec(html@),
        m.wf(),
{
    let cs = str_to_chars(html);
    let marker = str_to_chars("<meta");
    proof {
        reveal_strlit("<meta");
    }
    let mut m = MetaMap::new();
    let ghost mut done: Seq<(Seq<char>, Seq<char>)> = seq![];
    let n = cs.len();
    let mut pos: usize = 0;
    loop
        invariant_except_break
            n == cs@.len(),
            pos <= n,
            cs@ == html@,
            marker@ == meta_marker(),
            marker@.len() == 5,
            meta_pairs(html@) == done + meta_pairs_from(cs@, pos as int),
            m@ == map_of_pairs(done),
            m.wf(),
        ensures
            m@ == meta_spec(html@),
            m.wf(),
        decreases n - pos,
    {
        match find_pat(cs.as_slice(), marker.as_slice(), pos) {
            None => {
                proof {
                    assert(meta_pairs(html@) =~= done);
                }
                break;
            },
            Some(mt) => {
                proof {
                    lemma_find_from_some(cs@, marker@, pos as int, mt as int);
                }
                match find_char(cs.as_slice(), '>', mt) {
                    None => {
                        proof {
                            assert(meta_pairs_from(cs@, pos as int) =~= Seq::<(
                                Seq<char>,
                                Seq<char>,
                            )>::empty());
                            assert(meta_pairs(html@) =~= done);
                        }
                        break;
                    },
                    Some(g) => {
                        let tag = copy_range(cs.as_slice(), mt, g + 1);
                        let ghost rest = meta_pairs_from(cs@, g + 1);
                        match tag_pair(tag.as_slice()) {
                            None => {},
                            Some(p) => {
                                let ghost pr = (p.0@, p.1@);
                                m.insert(p.0, p.1);
                                proof {
                                    assert(done + (seq![pr] + rest) =~= done.push(pr) + rest);
                                    assert(done.push(pr).drop_last() =~= done);
                                    done = done.push(pr);
                                }
                            },
                        }
                        pos = g + 1;
                    },
                }
            },
        }
    }
    m
}

/// Among several complete meta tags carrying one name, the content of the
/// last one is what the mapping keeps.
pub proof fn lemma_meta_last_wins(s: Seq<char>, i: int)
    requires
        0 <= i < meta_pairs(s).len(),
        forall|j: int| i < j < meta_pairs(s).len() ==> meta_pairs(s)[j].0 != meta_pairs(s)[i].0,
    ensures
        meta_spec(s).contains_key(meta_pairs(s)[i].0),
        meta_spec(s)[meta_pairs(s)[i].0] == meta_pairs(s)[i].1,
{
    lemma_map_of_pairs_last(meta_pairs(s), i);
}

/// A name carried by no complete pair gets no entry: the mapping's names
/// are exactly the names of the complete pairs.
pub proof fn lemma_meta_keys(s: Seq<char>, k: Seq<char>)
    ensures
        meta_spec(s).contains_key(k) <==> exists|i: int|
            0 <= i < meta_pairs(s).len() && meta_pairs(s)[i].0 == k,
{
    lemma_map_of_pairs_dom(meta_pairs(s), k);
}

} // verus!
