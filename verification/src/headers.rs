//! Response header lines, and the case-insensitive header map of a
//! parsed request: names are folded to lower case on insertion, names
//! are unique, and on a repeated name the last value wins.

use vstd::prelude::*;
use vstd::string::StringExecFns;
use crate::strkit::{fold_chars, fold_char, fold_str, str_eq};

verus! {

/// One response header: a name and a verbatim value.
pub struct Header {
    pub name: String,
    pub value: String,
}

/// The serialized header line `name: value`.
pub open spec fn spec_header_line(name: Seq<char>, value: Seq<char>) -> Seq<char> {
    name + seq![':', ' '] + value
}

impl Header {
    pub fn new(name: String, value: String) -> (h: Header)
        ensures
            h.name == name,
            h.value == value,
    {
        Header { name, value }
    }

    pub fn format_to_string(self) -> (r: String)
        ensures
            r@ == spec_header_line(self.name@, self.value@),
    {
        let ghost n = self.name@;
        let mut r = self.name;
        r.append(": ");
        r.append(self.value.as_str());
        proof {
            reveal_strlit(": ");
            assert(r@ =~= spec_header_line(n, self.value@));
        }
        r
    }
}

/// The map denoted by a sequence of (name, value) pairs, later pairs
/// overriding earlier ones.
pub open spec fn map_of(hs: Seq<(Seq<char>, Seq<char>)>) -> Map<Seq<char>, Seq<char>>
    decreases hs.len(),
{
    if hs.len() == 0 {
        Map::empty()
    } else {
        map_of(hs.drop_last()).insert(hs.last().0, hs.last().1)
    }
}

pub proof fn lemma_map_of_keys(hs: Seq<(Seq<char>, Seq<char>)>)
    ensures
        forall|k: Seq<char>|
            map_of(hs).contains_key(k) <==> exists|i: int|
                0 <= i < hs.len() && (#[trigger] hs[i]).0 == k,
    decreases hs.len(),
{
    if hs.len() > 0 {
        lemma_map_of_keys(hs.drop_last());
        assert forall|k: Seq<char>| map_of(hs).contains_key(k) implies exists|i: int|
            0 <= i < hs.len() && (#[trigger] hs[i]).0 == k by {
            if k == hs.last().0 {
                assert(hs[hs.len() - 1].0 == k);
            } else {
                assert(map_of(hs) == map_of(hs.drop_last()).insert(hs.last().0, hs.last().1));
                assert(map_of(hs.drop_last()).contains_key(k));
                let i = choose|i: int| 0 <= i < hs.drop_last().len() && (#[trigger] hs.drop_last()[i]).0 == k;
                assert(hs.drop_last()[i] == hs[i]);
                assert(hs[i].0 == k);
            }
        }
        assert forall|k: Seq<char>|
            (exists|i: int| 0 <= i < hs.len() && (#[trigger] hs[i]).0 == k) implies map_of(
            hs,
        ).contains_key(k) by {
            let i = choose|i: int| 0 <= i < hs.len() && (#[trigger] hs[i]).0 == k;
            if i < hs.len() - 1 {
                assert(hs.drop_last()[i].0 == k);
            }
        }
    }
}

pub proof fn lemma_map_of_value(hs: Seq<(Seq<char>, Seq<char>)>, i: int)
    requires
        0 <= i < hs.len(),
        forall|p: int, q: int| 0 <= p < q < hs.len() ==> (#[trigger] hs[p]).0 != (#[trigger] hs[q]).0,
    ensures
        map_of(hs).contains_key(hs[i].0),
        map_of(hs)[hs[i].0] == hs[i].1,
    decreases hs.len(),
{
    if i < hs.len() - 1 {
        lemma_map_of_value(hs.drop_last(), i);
        assert(hs.drop_last()[i] == hs[i]);
        assert(hs[i].0 != hs.last().0);
    }
}

/// `hs` without its entry at `i` denotes the map without that entry's key.
pub proof fn lemma_map_of_remove(hs: Seq<(Seq<char>, Seq<char>)>, i: int)
    requires
        0 <= i < hs.len(),
        forall|p: int, q: int| 0 <= p < q < hs.len() ==> (#[trigger] hs[p]).0 != (#[trigger] hs[q]).0,
    ensures
        map_of(hs.remove(i)) == map_of(hs).remove(hs[i].0),
    decreases hs.len(),
{
    lemma_map_of_keys(hs.drop_last());
    if i == hs.len() - 1 {
        assert(hs.remove(i) =~= hs.drop_last());
        assert(!map_of(hs.drop_last()).contains_key(hs[i].0));
        assert(map_of(hs.remove(i)) =~= map_of(hs).remove(hs[i].0));
    } else {
        lemma_map_of_remove(hs.drop_last(), i);
        assert(hs.remove(i) =~= hs.drop_last().remove(i).push(hs.last()));
        assert(hs.remove(i).drop_last() =~= hs.drop_last().remove(i));
        assert(hs.drop_last()[i] == hs[i]);
        assert(hs[i].0 != hs.last().0);
        assert(map_of(hs.remove(i)) =~= map_of(hs).remove(hs[i].0));
    }
}

/// Case-insensitive header map: keys unique, stored case-folded.
pub struct HeaderMap {
    entries: Vec<Header>,
}

impl View for HeaderMap {
    type V = Map<Seq<char>, Seq<char>>;

    open spec fn view(&self) -> Map<Seq<char>, Seq<char>> {
        map_of(self.pairs())
    }
}

impl HeaderMap {
    /// The stored (name, value) pairs, in insertion order.
    pub closed spec fn pairs(&self) -> Seq<(Seq<char>, Seq<char>)> {
        Seq::new(self.entries@.len(), |i: int| (self.entries@[i].name@, self.entries@[i].value@))
    }

    /// Names are case-folded and pairwise distinct.
    pub closed spec fn wf(&self) -> bool {
        &&& forall|i: int|
            0 <= i < self.pairs().len() ==> (#[trigger] self.pairs()[i]).0 == fold_chars(
                self.pairs()[i].0,
            )
        &&& forall|p: int, q: int|
            0 <= p < q < self.pairs().len() ==> (#[trigger] self.pairs()[p]).0
                != (#[trigger] self.pairs()[q]).0
    }

    pub fn new() -> (h: HeaderMap)
        ensures
            h.wf(),
            h@ == Map::<Seq<char>, Seq<char>>::empty(),
    {
        let h = HeaderMap { entries: Vec::new() };
        proof {
            assert(h.pairs() =~= Seq::<(Seq<char>, Seq<char>)>::empty());
        }
        h
    }

    /// Inserts under the case-folded name; on a repeated name the new
    /// value replaces the old one.
    pub fn insert(&mut self, name: String, value: String)
        requires
            old(self).wf(),
        ensures
            final(self).wf(),
            final(self)@ == old(self)@.insert(fold_chars(name@), value@),
    {
        let folded = fold_str(name.as_str());
        let ghost k = fold_chars(name@);
        let mut idx: Option<usize> = None;
        let n = self.entries.len();
        let mut i: usize = 0;
        while i < n
            invariant
                0 <= i <= n,
                n == self.entries@.len(),
                folded@ == k,
                match idx {
                    Some(j) => j < i && self.pairs()[j as int].0 == k,
                    None => forall|j: int| 0 <= j < i ==> (#[trigger] self.pairs()[j]).0 != k,
                },
            decreases n - i,
        {
            if str_eq(self.entries[i].name.as_str(), folded.as_str()) {
                idx = Some(i);
                i = n;
            } else {
                i = i + 1;
            }
        }
        let ghost before = self.pairs();
        match idx {
            Some(j) => {
                proof {
                    lemma_map_of_remove(before, j as int);
                }
                self.entries.remove(j);
                proof {
                    assert(self.pairs() =~= before.remove(j as int));
                }
            },
            None => {
                proof {
                    lemma_map_of_keys(before);
                    assert(!map_of(before).contains_key(k));
                    assert(map_of(before).remove(k) =~= map_of(before));
                }
            },
        }
        let ghost mid = self.pairs();
        proof {
            assert(forall|j: int| 0 <= j < mid.len() ==> (#[trigger] mid[j]).0 != k);
            assert(forall|j: int|
                0 <= j < mid.len() ==> (#[trigger] mid[j]).0 == fold_chars(mid[j].0));
            assert(forall|p: int, q: int|
                0 <= p < q < mid.len() ==> (#[trigger] mid[p]).0 != (#[trigger] mid[q]).0);
        }
        self.entries.push(Header { name: folded, value });
        proof {
            assert(self.pairs().drop_last() =~= mid);
            assert(forall|j: int| 0 <= j < mid.len() ==> #[trigger] self.pairs()[j] == mid[j]);
            assert(self.pairs().last() == (k, value@));
            assert(self.pairs()[self.pairs().len() - 1] == (k, value@));
            assert(self@ == map_of(mid).insert(k, value@));
            assert(self@ =~= old(self)@.insert(k, value@));
            assert forall|c: char| #[trigger] fold_char(fold_char(c)) == fold_char(c) by {}
            assert(fold_chars(k) =~= k);
            assert(forall|j: int|
                0 <= j < self.pairs().len() ==> (#[trigger] self.pairs()[j]).0 == fold_chars(
                    self.pairs()[j].0,
                ));
            assert(forall|p: int, q: int|
                0 <= p < q < self.pairs().len() ==> (#[trigger] self.pairs()[p]).0
                    != (#[trigger] self.pairs()[q]).0);
        }
    }

    /// The value stored under the case-folded name, if any.
    pub fn get(&self, name: &str) -> (r: Option<String>)
        requires
            self.wf(),
        ensures
            match r {
                Some(v) => self@.contains_key(fold_chars(name@)) && v@ == self@[fold_chars(name@)],
                None => !self@.contains_key(fold_chars(name@)),
            },
    {
        let folded = fold_str(name);
        let ghost k = fold_chars(name@);
        let n = self.entries.len();
        let mut i: usize = 0;
        while i < n
            invariant
                0 <= i <= n,
                n == self.entries@.len(),
                folded@ == k,
                k == fold_chars(name@),
                self.wf(),
                forall|j: int| 0 <= j < i ==> (#[trigger] self.pairs()[j]).0 != k,
            decreases n - i,
        {
            if str_eq(self.entries[i].name.as_str(), folded.as_str()) {
                proof {
                    assert(self.pairs()[i as int].0 == k);
                    assert(self.pairs()[i as int].1 == self.entries@[i as int].value@);
                    lemma_map_of_value(self.pairs(), i as int);
                }
                return Some(self.entries[i].value.clone());
            }
            i = i + 1;
        }
        proof {
            lemma_map_of_keys(self.pairs());
        }
        None
    }
}

} // verus!
